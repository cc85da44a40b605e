//! Scanning: directory entries are matched against the rule set; each
//! matched directory yields one hit with a preview destination and the
//! warnings read off the entry. Exclusion rules win over every routing rule,
//! so an excluded name never yields a hit.

use vstd::prelude::*;
use crate::error::FileMoverError;
use crate::rule::{Rule, FolderHit, Warning};
use crate::config::ScanOptions;
use crate::matcher::{MatchingEngine, spec_excluded, spec_candidate, spec_winner, spec_contains,
    contains_sub};
use crate::template::{TemplateEngine, PlanDate, spec_expand, label_view, spec_expand_from};
use crate::path::{spec_last_segment, last_segment, spec_path_starts_with, path_starts_with};
use crate::normalize::{spec_case_fold, case_fold_char};
use crate::text::{str_to_chars, chars_to_string};

verus! {

/// One enumerated directory, as the platform walker reports it.
#[derive(Debug, Clone, PartialEq)]
pub struct DirectoryEntry {
    pub path: String,
    pub is_directory: bool,
    pub is_junction: bool,
    pub access_denied: bool,
    pub size_bytes: Option<u64>,
}

/// The warnings carried by a hit: a long path, a junction, a denied access,
/// an offline placeholder — in that order.
pub open spec fn spec_warnings(e: DirectoryEntry) -> Seq<Warning> {
    (if e.path@.len() > 260 {
        seq![Warning::LongPath]
    } else {
        Seq::<Warning>::empty()
    }) + (if e.is_junction {
        seq![Warning::Junction]
    } else {
        Seq::<Warning>::empty()
    }) + (if e.access_denied {
        seq![Warning::AccessDenied]
    } else {
        Seq::<Warning>::empty()
    }) + (if spec_offline(e.path@) {
        seq![Warning::Offline]
    } else {
        Seq::<Warning>::empty()
    })
}

/// Whether a path looks like an offline cloud placeholder: its case-folded
/// text names the sync service and a personal or business vault.
pub open spec fn spec_offline(p: Seq<char>) -> bool {
    let low = spec_case_fold(p);
    spec_contains(low, "onedrive"@) && (spec_contains(low, "personal"@) || spec_contains(
        low,
        "business"@,
    ))
}

/// Case-folds a path for the offline check.
fn fold_path(p: &str) -> (r: String)
    ensures
        r@ == spec_case_fold(p@),
{
    let v = str_to_chars(p);
    let n = v.len();
    let mut out: Vec<char> = Vec::new();
    let mut i: usize = 0;
    while i < n
        invariant
            i <= n,
            n == v@.len(),
            v@ == p@,
            out@ == p@.subrange(0, i as int).map_values(|c: char| case_fold_char(c)),
        decreases n - i,
    {
        let c = v[i];
        let f = if 'A' <= c && c <= 'Z' {
            crate::text::char_from_code(c as u32 + 0x20)
        } else {
            c
        };
        out.push(f);
        i = i + 1;
        proof {
            assert(out@ =~= p@.subrange(0, i as int).map_values(|c: char| case_fold_char(c)));
        }
    }
    proof {
        assert(p@.subrange(0, n as int) =~= p@);
        assert(out@ =~= spec_case_fold(p@));
    }
    chars_to_string(&out)
}

/// Whether an entry will yield a hit: it is a directory with a usable name
/// that no exclusion rule matches and some enabled routing rule does.
pub open spec fn entry_yields(
    e: DirectoryEntry,
    rules: Seq<Rule>,
    o: crate::pattern::NormalizationOptions,
) -> bool {
    &&& e.is_directory
    &&& spec_last_segment(e.path@).len() > 0
    &&& !spec_excluded(rules, spec_last_segment(e.path@), o)
    &&& exists|i: int| spec_candidate(rules, i, spec_last_segment(e.path@), o)
}

/// How a hit relates to the entry it came from: the entry's path, name,
/// warnings and size, the winning rule's id, and that rule's expanded
/// template as the preview destination.
pub open spec fn hit_of_entry(
    hit: FolderHit,
    e: DirectoryEntry,
    rules: Seq<Rule>,
    o: crate::pattern::NormalizationOptions,
    d: PlanDate,
) -> bool {
    let name = spec_last_segment(e.path@);
    &&& e.is_directory
    &&& name.len() > 0
    &&& !spec_excluded(rules, name, o)
    &&& hit.path@ == e.path@
    &&& hit.name@ == name
    &&& hit.warnings@ == spec_warnings(e)
    &&& hit.size_bytes == e.size_bytes
    &&& exists|i: int|
        spec_winner(rules, i, name, o) && hit.matched_rule == Some((#[trigger] rules[i]).id)
            && hit.dest_preview is Some && hit.dest_preview->0@ == spec_expand(
            rules[i],
            e.path@,
            d,
        )->0
}

/// The indices of the entries that yield hits, in order.
pub open spec fn yield_indices(
    entries: Seq<DirectoryEntry>,
    i: int,
    rules: Seq<Rule>,
    o: crate::pattern::NormalizationOptions,
) -> Seq<int>
    decreases entries.len() - i,
{
    if i < 0 || i >= entries.len() {
        Seq::empty()
    } else {
        (if entry_yields(entries[i], rules, o) {
            seq![i]
        } else {
            Seq::<int>::empty()
        }) + yield_indices(entries, i + 1, rules, o)
    }
}

/// Every yielding index lies within the entry list.
pub proof fn lemma_yield_indices_range(
    entries: Seq<DirectoryEntry>,
    i: int,
    rules: Seq<Rule>,
    o: crate::pattern::NormalizationOptions,
)
    ensures
        forall|q: int|
            0 <= q < yield_indices(entries, i, rules, o).len() ==> i <= #[trigger] yield_indices(
                entries,
                i,
                rules,
                o,
            )[q] < entries.len(),
    decreases entries.len() - i,
{
    if 0 <= i < entries.len() {
        lemma_yield_indices_range(entries, i + 1, rules, o);
        let here = yield_indices(entries, i, rules, o);
        let next = yield_indices(entries, i + 1, rules, o);
        assert forall|q: int| 0 <= q < here.len() implies i <= #[trigger] here[q]
            < entries.len() by {
            if entry_yields(entries[i], rules, o) {
                if q > 0 {
                    assert(here[q] == next[q - 1]);
                }
            } else {
                assert(here[q] == next[q]);
            }
        }
    }
}

/// Whether one entry forces a scan to fail: a directory without a usable
/// folder name, or a yielding entry whose winning rule's template does not
/// expand.
pub open spec fn entry_fails(
    e: DirectoryEntry,
    rules: Seq<Rule>,
    o: crate::pattern::NormalizationOptions,
    d: PlanDate,
) -> bool {
    ||| (e.is_directory && spec_last_segment(e.path@).len() == 0)
    ||| (entry_yields(e, rules, o) && exists|i: int|
        spec_winner(rules, i, spec_last_segment(e.path@), o) && spec_expand(
            #[trigger] rules[i],
            e.path@,
            d,
        ) is None)
}

/// Composes the walker's entries with the matcher into folder hits.
pub struct FolderScanner {
    pub matching_engine: MatchingEngine,
    pub options: ScanOptions,
}

impl FolderScanner {
    pub open spec fn wf(&self) -> bool {
        &&& self.matching_engine.wf()
        &&& self.matching_engine.options == self.options.normalization
    }

    /// Builds a scanner; fails with a `Pattern` error exactly when some
    /// rule's pattern does not compile.
    pub fn new(rules: Vec<Rule>, options: ScanOptions) -> (r: Result<Self, FileMoverError>)
        ensures
            match r {
                Ok(s) => {
                    &&& s.wf()
                    &&& s.matching_engine.rules@ == rules@
                    &&& s.options == options
                },
                Err(e) => e is Pattern,
            },
    {
        let normalization = options.normalization;
        match MatchingEngine::new(rules, normalization) {
            Ok(engine) => Ok(Self { matching_engine: engine, options }),
            Err(e) => Err(e),
        }
    }

    /// Whether the entry's path looks like an offline cloud placeholder.
    pub fn is_onedrive_offline(&self, path: &str) -> (r: bool)
        ensures
            r == spec_offline(path@),
    {
        let low = fold_path(path);
        contains_sub(low.as_str(), "onedrive") && (contains_sub(low.as_str(), "personal")
            || contains_sub(low.as_str(), "business"))
    }

    /// The warnings an entry carries. A path of exactly 260 characters is
    /// not long; one character more is.
    pub fn analyze_warnings(&self, entry: &DirectoryEntry) -> (r: Vec<Warning>)
        ensures
            r@ == spec_warnings(*entry),
            r@.contains(Warning::LongPath) <==> entry.path@.len() > 260,
    {
        let mut out: Vec<Warning> = Vec::new();
        if entry.path.as_str().unicode_len() > 260 {
            out.push(Warning::LongPath);
        }
        if entry.is_junction {
            out.push(Warning::Junction);
        }
        if entry.access_denied {
            out.push(Warning::AccessDenied);
        }
        if self.is_onedrive_offline(entry.path.as_str()) {
            out.push(Warning::Offline);
        }
        proof {
            assert(out@ =~= spec_warnings(*entry));
            if entry.path@.len() > 260 {
                assert(out@[0] == Warning::LongPath);
            }
            if out@.contains(Warning::LongPath) {
                if !(entry.path@.len() > 260) {
                    let k = choose|k: int| 0 <= k < out@.len() && out@[k] == Warning::LongPath;
                    assert(false);
                }
            }
        }
        out
    }

    /// Turns one entry into at most one hit. Files yield nothing; a name
    /// that an enabled exclusion rule matches yields nothing, whatever else
    /// matches it; otherwise the winning rule's template gives the preview
    /// destination, expanded with the engine's full variable set — every
    /// variable is a pure function of the rule, the path and the plan date,
    /// so the preview equals the destination the planner later assigns.
    /// Fails only on an empty folder name or a malformed template.
    pub fn process_entry(&self, entry: &DirectoryEntry, date: PlanDate) -> (r: Result<
        Option<FolderHit>,
        FileMoverError,
    >)
        requires
            self.wf(),
        ensures
            ({
                let name = spec_last_segment(entry.path@);
                let rules = self.matching_engine.rules@;
                let opts = self.matching_engine.options;
                &&& (!entry.is_directory ==> r == Result::<
                    Option<FolderHit>,
                    FileMoverError,
                >::Ok(Option::None))
                &&& (entry.is_directory && name.len() > 0 && spec_excluded(rules, name, opts)
                    ==> r is Ok && r->Ok_0 is None)
                &&& (entry_yields(*entry, rules, opts) && (forall|i: int|
                    spec_winner(rules, i, name, opts) ==> spec_expand(
                        rules[i],
                        entry.path@,
                        date,
                    ) is Some) ==> r is Ok && r->Ok_0 is Some)
                &&& (r is Ok && r->Ok_0 is Some ==> hit_of_entry(
                    r->Ok_0->0,
                    *entry,
                    rules,
                    opts,
                    date,
                ))
                &&& (r is Ok && r->Ok_0 is None ==> !entry_yields(*entry, rules, opts))
                &&& ((r is Err && r->Err_0 is Scan) <==> (entry.is_directory && name.len() == 0))
                &&& (r is Err && r->Err_0 is Config ==> exists|i: int|
                    spec_winner(rules, i, name, opts) && spec_expand(
                        #[trigger] rules[i],
                        entry.path@,
                        date,
                    ) is None)
                &&& (entry_yields(*entry, rules, opts) && (exists|i: int|
                    spec_winner(rules, i, name, opts) && spec_expand(
                        #[trigger] rules[i],
                        entry.path@,
                        date,
                    ) is None) ==> r is Err && r->Err_0 is Config)
                &&& (r is Err ==> (r->Err_0 is Scan || r->Err_0 is Config))
            }),
    {
        if !entry.is_directory {
            return Ok(None);
        }
        let name = last_segment(entry.path.as_str());
        if name.as_str().unicode_len() == 0 {
            return Err(FileMoverError::Scan {
                path: entry.path.clone(),
                message: "the entry has no usable folder name".to_owned(),
            });
        }
        let matched = match self.matching_engine.find_matching_rule(name.as_str()) {
            Ok(m) => m,
            Err(_) => {
                proof {
                    assert(false);
                }
                return Ok(None);
            },
        };
        match matched {
            Some(rule) => {
                let engine = TemplateEngine::new();
                let preview = match engine.expand_template(rule, entry.path.as_str(), date) {
                    Ok(p) => p,
                    Err(e) => {
                        return Err(e);
                    },
                };
                let warnings = self.analyze_warnings(entry);
                Ok(
                    Some(
                        FolderHit {
                            path: entry.path.clone(),
                            name,
                            matched_rule: Some(rule.id),
                            dest_preview: Some(preview),
                            warnings,
                            size_bytes: entry.size_bytes,
                        },
                    ),
                )
            },
            None => Ok(None),
        }
    }

    /// Turns a batch of entries into hits: exactly one hit per yielding
    /// entry, in entry order, each related to its entry as `hit_of_entry`
    /// says; files and unmatched or excluded directories yield nothing.
    pub fn scan_entries(&self, entries: &Vec<DirectoryEntry>, date: PlanDate) -> (r: Result<
        Vec<FolderHit>,
        FileMoverError,
    >)
        requires
            self.wf(),
        ensures
            r is Ok ==> {
                let ys = yield_indices(
                    entries@,
                    0,
                    self.matching_engine.rules@,
                    self.matching_engine.options,
                );
                &&& r->Ok_0@.len() == ys.len()
                &&& forall|q: int|
                    0 <= q < ys.len() ==> 0 <= ys[q] < entries@.len() && hit_of_entry(
                        #[trigger] r->Ok_0@[q],
                        entries@[ys[q]],
                        self.matching_engine.rules@,
                        self.matching_engine.options,
                        date,
                    )
            },
            r is Ok ==> r->Ok_0@.len() <= entries@.len(),
            r is Err <==> exists|q: int|
                0 <= q < entries@.len() && entry_fails(
                    #[trigger] entries@[q],
                    self.matching_engine.rules@,
                    self.matching_engine.options,
                    date,
                ),
            r is Err ==> (r->Err_0 is Scan || r->Err_0 is Config),
    {
        let ghost rl = self.matching_engine.rules@;
        let ghost op = self.matching_engine.options;
        proof {
            lemma_yield_indices_range(entries@, 0, rl, op);
        }
        let n = entries.len();
        let mut out: Vec<FolderHit> = Vec::new();
        let mut i: usize = 0;
        while i < n
            invariant
                i <= n,
                n == entries@.len(),
                self.wf(),
                rl == self.matching_engine.rules@,
                op == self.matching_engine.options,
                out@.len() <= i,
                out@.len() + yield_indices(entries@, i as int, rl, op).len() == yield_indices(
                    entries@,
                    0,
                    rl,
                    op,
                ).len(),
                forall|q: int|
                    0 <= q < yield_indices(entries@, i as int, rl, op).len() ==> yield_indices(
                        entries@,
                        i as int,
                        rl,
                        op,
                    )[q] == yield_indices(entries@, 0, rl, op)[out@.len() + q],
                forall|q: int|
                    0 <= q < out@.len() ==> hit_of_entry(
                        #[trigger] out@[q],
                        entries@[yield_indices(entries@, 0, rl, op)[q]],
                        rl,
                        op,
                        date,
                    ),
                forall|m: int| 0 <= m < i ==> !entry_fails(#[trigger] entries@[m], rl, op, date),
            decreases n - i,
        {
            let ghost ys_full = yield_indices(entries@, 0, rl, op);
            let ghost ys_here = yield_indices(entries@, i as int, rl, op);
            let ghost out_before = out@;
            match self.process_entry(&entries[i], date) {
                Ok(Some(hit)) => {
                    proof {
                        assert(entry_yields(entries@[i as int], rl, op));
                        assert(ys_here == seq![i as int] + yield_indices(
                            entries@,
                            i + 1,
                            rl,
                            op,
                        ));
                        assert(ys_here[0] == i as int);
                        assert(ys_full[out_before.len() as int] == i as int);
                    }
                    out.push(hit);
                    proof {
                        let ys_next = yield_indices(entries@, i + 1, rl, op);
                        assert forall|q: int| 0 <= q < ys_next.len() implies ys_next[q]
                            == ys_full[out@.len() + q] by {
                            assert(ys_next[q] == ys_here[q + 1]);
                        }
                        assert forall|q: int|
                            0 <= q < out@.len() implies hit_of_entry(
                            #[trigger] out@[q],
                            entries@[ys_full[q]],
                            rl,
                            op,
                            date,
                        ) by {
                            if q < out_before.len() {
                                assert(out@[q] == out_before[q]);
                            } else {
                                assert(out@[q] == out@.last());
                                assert(ys_full[q] == i as int);
                            }
                        }
                    }
                },
                Ok(None) => {
                    proof {
                        assert(!entry_yields(entries@[i as int], rl, op));
                        assert(ys_here == yield_indices(entries@, i + 1, rl, op));
                    }
                },
                Err(e) => {
                    proof {
                        let name = spec_last_segment(entries@[i as int].path@);
                        if !(e is Scan) {
                            let w = choose|j: int|
                                spec_winner(rl, j, name, op) && spec_expand(
                                    rl[j],
                                    entries@[i as int].path@,
                                    date,
                                ) is None;
                            assert(spec_candidate(rl, w, name, op));
                            assert(entry_yields(entries@[i as int], rl, op));
                        }
                        assert(entry_fails(entries@[i as int], rl, op, date));
                    }
                    return Err(e);
                },
            }
            i = i + 1;
        }
        proof {
            assert(yield_indices(entries@, n as int, rl, op).len() == 0);
            lemma_yield_indices_range(entries@, 0, rl, op);
        }
        Ok(out)
    }
}

// ---------------------------------------------------------------------------
// The walker's pure path policies. The enumeration itself is filesystem
// work and lives with the caller; these predicates decide what it prunes.
// ---------------------------------------------------------------------------
/// Whether `p` begins with `pre`, character for character.
pub open spec fn spec_str_starts_with(p: Seq<char>, pre: Seq<char>) -> bool {
    pre.len() <= p.len() && p.subrange(0, pre.len() as int) == pre
}

fn str_starts_with(p: &str, pre: &str) -> (r: bool)
    ensures
        r == spec_str_starts_with(p@, pre@),
{
    let pv = str_to_chars(p);
    let prev = str_to_chars(pre);
    let np = pv.len();
    let npre = prev.len();
    if npre > np {
        return false;
    }
    let mut i: usize = 0;
    while i < npre
        invariant
            i <= npre <= np,
            np == p@.len(),
            npre == pre@.len(),
            pv@ == p@,
            prev@ == pre@,
            forall|j: int| 0 <= j < i ==> p@[j] == pre@[j],
        decreases npre - i,
    {
        if pv[i] != prev[i] {
            proof {
                assert(p@.subrange(0, npre as int)[i as int] != pre@[i as int]);
            }
            return false;
        }
        i = i + 1;
    }
    proof {
        assert(p@.subrange(0, npre as int) =~= pre@);
    }
    true
}

/// The text of a path folded to upper case, for the protected-tree check.
pub open spec fn spec_upper_fold(s: Seq<char>) -> Seq<char> {
    s.map_values(|c: char| crate::template::upper_char(c))
}

fn upper_fold(s: &str) -> (r: String)
    ensures
        r@ == spec_upper_fold(s@),
{
    let v = str_to_chars(s);
    let n = v.len();
    let mut out: Vec<char> = Vec::new();
    let mut i: usize = 0;
    while i < n
        invariant
            i <= n,
            n == v@.len(),
            v@ == s@,
            out@ == s@.subrange(0, i as int).map_values(
                |c: char| crate::template::upper_char(c),
            ),
        decreases n - i,
    {
        let c = v[i];
        let f = if 'a' <= c && c <= 'z' {
            crate::text::char_from_code(c as u32 - 0x20)
        } else {
            c
        };
        out.push(f);
        i = i + 1;
        proof {
            assert(out@ =~= s@.subrange(0, i as int).map_values(
                |c: char| crate::template::upper_char(c),
            ));
        }
    }
    proof {
        assert(s@.subrange(0, n as int) =~= s@);
        assert(out@ =~= spec_upper_fold(s@));
    }
    chars_to_string(&out)
}

/// Whether a path lies in a protected system tree: under the system or
/// program-files directories, in a recycle bin, or in the volume metadata.
pub open spec fn spec_protected(p: Seq<char>, excluded: Seq<String>) -> bool {
    let up = spec_upper_fold(p);
    ||| spec_str_starts_with(up, "C:\\WINDOWS"@)
    ||| spec_str_starts_with(up, "C:\\PROGRAM FILES"@)
    ||| spec_contains(up, "$RECYCLE.BIN"@)
    ||| spec_contains(up, "SYSTEM VOLUME INFORMATION"@)
    ||| exists|i: int|
        0 <= i < excluded.len() && spec_path_starts_with(p, (#[trigger] excluded[i])@)
}

/// Decides which subtrees a walk prunes. The enumeration itself is the
/// caller's filesystem work.
pub struct DirectoryWalker {
    pub options: ScanOptions,
}

impl DirectoryWalker {
    pub fn new(options: ScanOptions) -> (r: Self)
        ensures
            r.options == options,
    {
        Self { options }
    }

    /// Whether the path lies in a protected system tree or a configured
    /// exclusion.
    pub fn is_protected_path(&self, path: &str) -> (r: bool)
        ensures
            r == spec_protected(path@, self.options.excluded_paths@),
    {
        let up = upper_fold(path);
        if str_starts_with(up.as_str(), "C:\\WINDOWS") {
            return true;
        }
        if str_starts_with(up.as_str(), "C:\\PROGRAM FILES") {
            return true;
        }
        if contains_sub(up.as_str(), "$RECYCLE.BIN") {
            return true;
        }
        if contains_sub(up.as_str(), "SYSTEM VOLUME INFORMATION") {
            return true;
        }
        self.is_excluded_path(path)
    }

    /// The walk's descent decision at one directory it has just listed:
    /// enter it only when it is no junction or junctions are followed, the
    /// depth limit (counted in levels below the root) is not passed, and —
    /// when junctions are followed, so the walk could loop — it was not
    /// entered before.
    pub fn should_descend(&self, is_junction: bool, child_depth: u32, seen_before: bool) -> (r:
        bool)
        ensures
            r == ((!is_junction || self.options.follow_junctions) && (match self
                .options
                .max_depth {
                Option::Some(limit) => child_depth <= limit,
                Option::None => true,
            }) && !(self.options.follow_junctions && seen_before)),
    {
        if is_junction && !self.options.follow_junctions {
            return false;
        }
        if let Some(limit) = self.options.max_depth {
            if child_depth > limit {
                return false;
            }
        }
        if self.options.follow_junctions && seen_before {
            return false;
        }
        true
    }

    /// Whether the path lies under a configured exclusion.
    pub fn is_excluded_path(&self, path: &str) -> (r: bool)
        ensures
            r == exists|i: int|
                0 <= i < self.options.excluded_paths@.len() && spec_path_starts_with(
                    path@,
                    (#[trigger] self.options.excluded_paths@[i])@,
                ),
    {
        let n = self.options.excluded_paths.len();
        let mut i: usize = 0;
        while i < n
            invariant
                i <= n,
                n == self.options.excluded_paths@.len(),
                forall|j: int|
                    0 <= j < i ==> !spec_path_starts_with(
                        path@,
                        (#[trigger] self.options.excluded_paths@[j])@,
                    ),
            decreases n - i,
        {
            if path_starts_with(path, self.options.excluded_paths[i].as_str()) {
                return true;
            }
            i = i + 1;
        }
        false
    }
}

} // verus!
