//! Destination conflict resolution. The resolver owns the set of paths
//! already committed to within one plan generation, seeded with the paths
//! known to exist on disk, and resolves each desired destination under a
//! policy: renaming to a free `stem_k` name, or keeping the collision as a
//! `NameExists` conflict.

use vstd::prelude::*;
use crate::error::FileMoverError;
use crate::plan::Conflict;
use crate::rule::ConflictPolicy;
use crate::path::{
    spec_parent, spec_last_segment, spec_stem, spec_extension, spec_join, spec_path_starts_with,
    spec_first_component, parent_path, last_segment, stem_and_extension, join_path,
    path_starts_with, first_component,
};
use crate::num::spec_dec;
use crate::text::{eq_str, chars_to_string, str_to_chars};
use crate::num::u64_to_dec_chars;

verus! {

/// Whether some string of `s` reads `x`.
pub open spec fn name_taken(s: Seq<String>, x: Seq<char>) -> bool {
    exists|i: int| 0 <= i < s.len() && s[i]@ == x
}

/// The auto-rename counter recorded for `key`: the first entry's value, or
/// zero when none is recorded.
pub open spec fn counter_from(cs: Seq<(String, u32)>, i: int, key: Seq<char>) -> u32
    decreases cs.len() - i,
{
    if i < 0 || i >= cs.len() {
        0u32
    } else if cs[i].0@ == key {
        cs[i].1
    } else {
        counter_from(cs, i + 1, key)
    }
}

/// The `k`-th alternative destination for `orig`: its final segment becomes
/// `stem_k`, keeping a nonempty extension.
pub open spec fn candidate_name(orig: Seq<char>, k: nat) -> Seq<char> {
    let seg = spec_last_segment(orig);
    let base = spec_stem(seg) + seq!['_'] + spec_dec(k);
    let name = match spec_extension(seg) {
        Option::None => base,
        Option::Some(e) => if e.len() == 0 {
            base
        } else {
            base + seq!['.'] + e
        },
    };
    spec_join(spec_parent(orig), name)
}

/// The least `k` at or after `from`, bounded by 9999, whose candidate name
/// is free; `None` when every such candidate is taken.
pub open spec fn free_candidate_from(s: Seq<String>, orig: Seq<char>, k: nat) -> Option<nat>
    decreases 10000 - k,
{
    if k > 9999 {
        None
    } else if !name_taken(s, candidate_name(orig, k)) {
        Some(k)
    } else {
        free_candidate_from(s, orig, (k + 1) as nat)
    }
}

/// A free candidate index never exceeds 9999.
pub proof fn lemma_free_candidate_bound(s: Seq<String>, orig: Seq<char>, k: nat)
    ensures
        match free_candidate_from(s, orig, k) {
            Option::None => true,
            Option::Some(j) => k <= j <= 9999,
        },
    decreases if k <= 10000 { 10000 - k } else { 0 },
{
    if k <= 9999 && name_taken(s, candidate_name(orig, k)) {
        lemma_free_candidate_bound(s, orig, (k + 1) as nat);
    }
}

/// A candidate that the search reports free is free.
pub proof fn lemma_free_candidate_is_free(s: Seq<String>, orig: Seq<char>, k: nat)
    ensures
        match free_candidate_from(s, orig, k) {
            Option::None => true,
            Option::Some(j) => !name_taken(s, candidate_name(orig, j)),
        },
    decreases if k <= 10000 {
        10000 - k
    } else {
        0
    },
{
    if k <= 9999 && name_taken(s, candidate_name(orig, k)) {
        lemma_free_candidate_is_free(s, orig, (k + 1) as nat);
    }
}

/// Reserving one more path keeps every taken name taken, and takes the new
/// one.
pub proof fn lemma_name_taken_push(s: Seq<String>, x: String, p: Seq<char>)
    ensures
        name_taken(s, p) ==> name_taken(s.push(x), p),
        x@ == p ==> name_taken(s.push(x), p),
{
    if name_taken(s, p) {
        let i = choose|i: int| 0 <= i < s.len() && s[i]@ == p;
        assert(s.push(x)[i]@ == p);
    }
    if x@ == p {
        assert(s.push(x)[s.len() as int]@ == p);
    }
}

/// Whether `c` is a `NameExists` conflict for path `p`.
pub open spec fn is_name_exists(c: Conflict, p: Seq<char>) -> bool {
    match c {
        Conflict::NameExists { existing_path } => existing_path@ == p,
        _ => false,
    }
}

/// Whether a vector of `v` holds the string `p`.
fn contains_path(v: &Vec<String>, p: &str) -> (r: bool)
    ensures
        r == name_taken(v@, p@),
{
    let n = v.len();
    let mut i: usize = 0;
    while i < n
        invariant
            i <= n,
            n == v@.len(),
            forall|j: int| 0 <= j < i ==> (#[trigger] v@[j])@ != p@,
        decreases n - i,
    {
        if eq_str(v[i].as_str(), p) {
            return true;
        }
        i = i + 1;
    }
    false
}

/// Builds the `k`-th alternative destination for `orig`.
fn make_candidate(orig: &str, k: u64) -> (r: String)
    ensures
        r@ == candidate_name(orig@, k as nat),
{
    proof {
        reveal_strlit("_");
        reveal_strlit(".");
        assert("_"@ =~= seq!['_']);
        assert("."@ =~= seq!['.']);
    }
    let parent = parent_path(orig);
    let seg = last_segment(orig);
    let (stem, ext) = stem_and_extension(seg.as_str());
    let num = chars_to_string(&u64_to_dec_chars(k));
    let base = stem.concat("_").concat(num.as_str());
    let name = match ext {
        Option::Some(e) => {
            if e.unicode_len() == 0 {
                base
            } else {
                base.concat(".").concat(e.as_str())
            }
        },
        Option::None => base,
    };
    join_path(parent.as_str(), name.as_str())
}

/// Resolves desired destinations against the reserved set, keeping the
/// auto-rename counter of each contested name.
pub struct ConflictResolver {
    /// Paths committed to in this plan, plus the seeded on-disk paths.
    pub existing_paths: Vec<String>,
    /// The last auto-rename counter used per contested destination; the
    /// first entry for a path is current.
    pub auto_rename_counters: Vec<(String, u32)>,
}

impl ConflictResolver {
    pub fn new() -> (r: Self)
        ensures
            r.existing_paths@.len() == 0,
            r.auto_rename_counters@.len() == 0,
    {
        Self { existing_paths: Vec::new(), auto_rename_counters: Vec::new() }
    }

    /// Forgets every reservation and counter.
    pub fn reset(&mut self)
        ensures
            final(self).existing_paths@.len() == 0,
            final(self).auto_rename_counters@.len() == 0,
    {
        self.existing_paths.clear();
        self.auto_rename_counters.clear();
    }

    /// Seeds the resolver with a path known to be taken.
    pub fn add_existing_path(&mut self, path: String)
        ensures
            final(self).existing_paths@ == old(self).existing_paths@.push(path),
            final(self).auto_rename_counters@ == old(self).auto_rename_counters@,
    {
        self.existing_paths.push(path);
    }

    /// Whether the path is taken: reserved in this plan or seeded as
    /// existing on disk.
    pub fn path_exists(&self, path: &str) -> (r: bool)
        ensures
            r == name_taken(self.existing_paths@, path@),
    {
        contains_path(&self.existing_paths, path)
    }

    /// The planner detects destination/source coincidences over the whole
    /// plan; the resolver itself never reports one.
    pub fn is_cyclic_move(&self, source: &str, dest: &str) -> (r: bool)
        ensures
            !r,
    {
        false
    }

    /// Whether the destination lies inside the source directory.
    pub fn is_dest_inside_source(&self, source: &str, dest: &str) -> (r: bool)
        ensures
            r == spec_path_starts_with(dest@, source@),
    {
        path_starts_with(dest, source)
    }

    /// The volume root of a path: its drive prefix followed by a separator,
    /// or the primary drive when the path has no prefix.
    pub fn get_volume_root(&self, path: &str) -> (r: String)
        ensures
            ({
                let fc = spec_first_component(path@);
                if fc.len() >= 2 && fc[fc.len() - 1] == ':' {
                    r@ == fc + seq!['\\']
                } else {
                    r@ =~= "C:"@ + seq!['\\']
                }
            }),
    {
        proof {
            reveal_strlit("\\");
            assert("\\"@ =~= seq!['\\']);
            reveal_strlit("C:");
        }
        let fc = first_component(path);
        let v = str_to_chars(fc.as_str());
        let n = v.len();
        if n >= 2 && v[n - 1] == ':' {
            fc.concat("\\")
        } else {
            let base: String = "C:".to_owned();
            base.concat("\\")
        }
    }

    /// The auto-rename counter recorded for `key`.
    fn get_counter(&self, key: &str) -> (r: u32)
        ensures
            r == counter_from(self.auto_rename_counters@, 0, key@),
    {
        let n = self.auto_rename_counters.len();
        let mut i: usize = 0;
        while i < n
            invariant
                i <= n,
                n == self.auto_rename_counters@.len(),
                counter_from(self.auto_rename_counters@, 0, key@) == counter_from(
                    self.auto_rename_counters@,
                    i as int,
                    key@,
                ),
            decreases n - i,
        {
            if eq_str(self.auto_rename_counters[i].0.as_str(), key) {
                return self.auto_rename_counters[i].1;
            }
            i = i + 1;
        }
        0
    }

    /// Finds the next free `stem_k` alternative for `original`, remembering
    /// the counter; fails with `PlanValidation` when every `k` up to 9999 is
    /// taken, so `_10000` is never produced.
    pub(crate) fn generate_auto_renamed_path(&mut self, original: &str) -> (r: Result<String, FileMoverError>)
        ensures
            final(self).existing_paths@ == old(self).existing_paths@,
            ({
                let start = counter_from(old(self).auto_rename_counters@, 0, original@) as nat;
                match free_candidate_from(old(self).existing_paths@, original@, start + 1) {
                    Option::Some(k) => {
                        &&& r is Ok
                        &&& r->Ok_0@ == candidate_name(original@, k)
                        &&& k <= 9999
                        &&& counter_from(final(self).auto_rename_counters@, 0, original@) == k
                    },
                    Option::None => {
                        &&& r is Err
                        &&& r->Err_0 is PlanValidation
                        &&& final(self).auto_rename_counters@ == old(
                            self,
                        ).auto_rename_counters@
                    },
                }
            }),
    {
        let ghost ex = self.existing_paths@;
        let ghost cs0 = self.auto_rename_counters@;
        let start = self.get_counter(original);
        let ghost start_n = start as nat;
        proof {
            lemma_free_candidate_bound(ex, original@, start_n + 1);
        }
        if start >= 9999 {
            proof {
                assert(free_candidate_from(ex, original@, start_n + 1) is None);
            }
            return Err(FileMoverError::PlanValidation {
                message: "no free auto-rename candidate below the bound".to_owned(),
            });
        }
        let mut k: u64 = start as u64 + 1;
        while k <= 9999
            invariant
                start < 9999,
                start as u64 + 1 <= k <= 10000,
                ex == old(self).existing_paths@,
                cs0 == old(self).auto_rename_counters@,
                self.existing_paths@ == ex,
                self.auto_rename_counters@ == cs0,
                start == counter_from(cs0, 0, original@),
                free_candidate_from(ex, original@, (start + 1) as nat) == free_candidate_from(
                    ex,
                    original@,
                    k as nat,
                ),
            decreases 10000 - k,
        {
            let cand = make_candidate(original, k);
            if !contains_path(&self.existing_paths, cand.as_str()) {
                proof {
                    assert(free_candidate_from(ex, original@, k as nat) == Some(k as nat));
                }
                self.auto_rename_counters.insert(0, (original.to_owned(), k as u32));
                proof {
                    assert(counter_from(self.auto_rename_counters@, 0, original@) == k as u32);
                }
                return Ok(cand);
            }
            k = k + 1;
        }
        proof {
            assert(free_candidate_from(ex, original@, k as nat) is None);
        }
        Err(FileMoverError::PlanValidation {
            message: "no free auto-rename candidate below the bound".to_owned(),
        })
    }

    /// Resolves a desired destination under a policy. A taken destination is
    /// renamed to the next free alternative under `AutoRename` (failing with
    /// `PlanValidation` when every candidate up to 9999 is taken), and kept
    /// with a `NameExists` conflict under `Skip` and `Overwrite`. The final
    /// path is reserved.
    pub fn resolve_conflicts(&mut self, dest_path: &str, policy: ConflictPolicy) -> (r: Result<
        (String, Vec<Conflict>),
        FileMoverError,
    >)
        ensures
            ({
                let ex = old(self).existing_paths@;
                let taken = name_taken(ex, dest_path@);
                match policy {
                    ConflictPolicy::AutoRename => {
                        if !taken {
                            &&& r is Ok
                            &&& r->Ok_0.0@ == dest_path@
                            &&& r->Ok_0.1@.len() == 0
                            &&& final(self).existing_paths@.len() == ex.len() + 1
                            &&& final(self).existing_paths@.drop_last() == ex
                            &&& final(self).existing_paths@.last()@ == dest_path@
                        } else {
                            let start = counter_from(
                                old(self).auto_rename_counters@,
                                0,
                                dest_path@,
                            ) as nat;
                            match free_candidate_from(ex, dest_path@, start + 1) {
                                Option::Some(k) => {
                                    &&& r is Ok
                                    &&& r->Ok_0.0@ == candidate_name(dest_path@, k)
                                    &&& k <= 9999
                                    &&& r->Ok_0.1@.len() == 0
                                    &&& final(self).existing_paths@.len() == ex.len() + 1
                                    &&& final(self).existing_paths@.drop_last() == ex
                                    &&& final(self).existing_paths@.last()@ == candidate_name(
                                        dest_path@,
                                        k,
                                    )
                                },
                                Option::None => {
                                    &&& r is Err
                                    &&& r->Err_0 is PlanValidation
                                    &&& final(self).existing_paths@ == ex
                                },
                            }
                        }
                    },
                    _ => {
                        &&& r is Ok
                        &&& r->Ok_0.0@ == dest_path@
                        &&& (taken ==> r->Ok_0.1@.len() == 1 && is_name_exists(
                            r->Ok_0.1@[0],
                            dest_path@,
                        ))
                        &&& (!taken ==> r->Ok_0.1@.len() == 0)
                        &&& final(self).existing_paths@.len() == ex.len() + 1
                        &&& final(self).existing_paths@.drop_last() == ex
                        &&& final(self).existing_paths@.last()@ == dest_path@
                        &&& final(self).auto_rename_counters@ == old(
                            self,
                        ).auto_rename_counters@
                    },
                }
            }),
    {
        let taken = contains_path(&self.existing_paths, dest_path);
        match policy {
            ConflictPolicy::AutoRename => {
                if !taken {
                    self.existing_paths.push(dest_path.to_owned());
                    proof {
                        assert(final(self).existing_paths@.drop_last() =~= old(
                            self,
                        ).existing_paths@);
                    }
                    Ok((dest_path.to_owned(), Vec::new()))
                } else {
                    match self.generate_auto_renamed_path(dest_path) {
                        Ok(new_path) => {
                            self.existing_paths.push(new_path.clone());
                            proof {
                                assert(final(self).existing_paths@.drop_last() =~= old(
                                    self,
                                ).existing_paths@);
                            }
                            Ok((new_path, Vec::new()))
                        },
                        Err(e) => Err(e),
                    }
                }
            },
            _ => {
                let mut conflicts: Vec<Conflict> = Vec::new();
                if taken {
                    conflicts.push(Conflict::NameExists { existing_path: dest_path.to_owned() });
                }
                self.existing_paths.push(dest_path.to_owned());
                proof {
                    assert(final(self).existing_paths@.drop_last() =~= old(self).existing_paths@);
                }
                Ok((dest_path.to_owned(), conflicts))
            },
        }
    }

    /// The first index at which `s` holds the string `x`.
    pub open spec fn first_index_from(s: Seq<String>, i: int, x: Seq<char>) -> Option<int>
        decreases s.len() - i,
    {
        if i < 0 || i >= s.len() {
            None
        } else if s[i]@ == x {
            Some(i)
        } else {
            Self::first_index_from(s, i + 1, x)
        }
    }

    /// Frees one reservation of `path`: removes its first occurrence, so a
    /// path reserved by several nodes stays reserved for the others.
    pub fn release_path(&mut self, path: &str)
        ensures
            final(self).auto_rename_counters@ == old(self).auto_rename_counters@,
            match Self::first_index_from(old(self).existing_paths@, 0, path@) {
                Option::None => final(self).existing_paths@ == old(self).existing_paths@,
                Option::Some(i) => final(self).existing_paths@ == old(
                    self,
                ).existing_paths@.remove(i),
            },
    {
        let n = self.existing_paths.len();
        let mut i: usize = 0;
        while i < n
            invariant
                i <= n,
                n == self.existing_paths@.len(),
                self.existing_paths@ == old(self).existing_paths@,
                self.auto_rename_counters@ == old(self).auto_rename_counters@,
                Self::first_index_from(old(self).existing_paths@, 0, path@)
                    == Self::first_index_from(old(self).existing_paths@, i as int, path@),
            decreases n - i,
        {
            if eq_str(self.existing_paths[i].as_str(), path) {
                self.existing_paths.remove(i);
                return ;
            }
            i = i + 1;
        }
    }
}

impl Default for ConflictResolver {
    fn default() -> Self {
        Self::new()
    }
}

} // verus!
