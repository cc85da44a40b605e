//! Evaluation of a folder name against a prioritized rule set: exclusion
//! rules first, then the enabled routing rule with the lowest priority,
//! ties broken by position in the rule list.

use vstd::prelude::*;
use crate::error::FileMoverError;
use crate::pattern::{PatternKind, PatternSpec, NormalizationOptions};
use crate::rule::Rule;
use crate::normalize::{TextNormalizer, spec_normalize};
use crate::text::str_to_chars;

verus! {

// ---------------------------------------------------------------------------
// Substring search.
// ---------------------------------------------------------------------------
pub open spec fn spec_contains_at(hay: Seq<char>, needle: Seq<char>, k: int) -> bool {
    0 <= k && k + needle.len() <= hay.len() && hay.subrange(k, k + needle.len()) == needle
}

pub open spec fn spec_contains(hay: Seq<char>, needle: Seq<char>) -> bool {
    exists|k: int| spec_contains_at(hay, needle, k)
}

/// Whether `needle` occurs as a contiguous substring of `hay`.
pub fn contains_sub(hay: &str, needle: &str) -> (r: bool)
    ensures
        r == spec_contains(hay@, needle@),
{
    let hv = str_to_chars(hay);
    let nv = str_to_chars(needle);
    let hn = hv.len();
    let nn = nv.len();
    if nn > hn {
        proof {
            assert(forall|k: int| !spec_contains_at(hay@, needle@, k));
        }
        return false;
    }
    if nn == 0 {
        proof {
            assert(hay@.subrange(0, 0) =~= needle@);
            assert(spec_contains_at(hay@, needle@, 0));
        }
        return true;
    }
    let last = hn - nn;
    let mut k: usize = 0;
    loop
        invariant
            k <= last + 1,
            last == hn - nn,
            1 <= nn <= hn,
            hn == hay@.len(),
            nn == needle@.len(),
            hv@ == hay@,
            nv@ == needle@,
            forall|k2: int| 0 <= k2 < k ==> !spec_contains_at(hay@, needle@, k2),
        ensures
            spec_contains(hay@, needle@) == (k <= last),
            k <= last ==> spec_contains_at(hay@, needle@, k as int),
        decreases last + 1 - k,
    {
        if k > last {
            proof {
                assert forall|k2: int| !spec_contains_at(hay@, needle@, k2) by {
                    if spec_contains_at(hay@, needle@, k2) {
                        assert(0 <= k2 <= last);
                    }
                }
            }
            break;
        }
        let mut j: usize = 0;
        let mut matched = true;
        while j < nn
            invariant
                j <= nn,
                k <= last,
                last == hn - nn,
                hn == hay@.len(),
                nn == needle@.len(),
                hv@ == hay@,
                nv@ == needle@,
                matched ==> forall|j2: int| 0 <= j2 < j ==> hay@[k + j2] == needle@[j2],
                !matched ==> !spec_contains_at(hay@, needle@, k as int),
            decreases nn - j,
        {
            if hv[k + j] != nv[j] {
                proof {
                    if spec_contains_at(hay@, needle@, k as int) {
                        assert(hay@.subrange(k as int, k + nn)[j as int] == needle@[j as int]);
                    }
                }
                matched = false;
                j = nn;
            } else {
                j = j + 1;
            }
        }
        if matched {
            proof {
                assert(hay@.subrange(k as int, k + nn) =~= needle@);
                assert(spec_contains_at(hay@, needle@, k as int));
            }
            break;
        }
        k = k + 1;
    }
    k <= last
}

// ---------------------------------------------------------------------------
// Outside pattern engines.
// ---------------------------------------------------------------------------
/// Whether `globset` compiles this pattern text into a usable matcher —
/// the parse and the bounded regex build both succeed. The crate's
/// backslash handling is chosen at compile time per target, so this and
/// `glob_match` name per-target functions.
pub uninterp spec fn glob_ok(pattern: Seq<char>) -> bool;

/// What `globset` answers for this pattern and subject; a function of the
/// two texts alone on any one target.
pub uninterp spec fn glob_match(pattern: Seq<char>, text: Seq<char>) -> bool;

/// Whether the `regex` crate accepts this pattern text when built with the
/// given case flag. The flag belongs to the name: case folding enlarges the
/// compiled program, and the crate bounds its size at build time, so a
/// pattern can compile plain and fail case-insensitively.
pub uninterp spec fn regex_ok(pattern: Seq<char>, case_insensitive: bool) -> bool;

/// What the `regex` crate answers for this pattern, case flag and subject; a
/// function of them alone.
pub uninterp spec fn regex_match(pattern: Seq<char>, case_insensitive: bool, text: Seq<char>) -> bool;

/// Relies on `globset::Glob::new` and `GlobSetBuilder::build`: whether the
/// pattern compiles into a usable matcher. The fallible builder is the
/// whole test — `Glob::compile_matcher` would panic where the bounded
/// regex build fails, so it is never called.
#[verifier::external_body]
fn glob_pattern_ok(pattern: &str) -> (r: bool)
    ensures
        r == glob_ok(pattern@),
{
    match globset::Glob::new(pattern) {
        Ok(g) => {
            let mut b = globset::GlobSetBuilder::new();
            b.add(g);
            b.build().is_ok()
        }
        Err(_) => false,
    }
}

/// Relies on `globset::Glob::new`, `GlobSetBuilder::build` and
/// `GlobSet::is_match`: whether the whole subject matches the glob; `None`
/// exactly when the pattern does not compile into a usable matcher (the
/// parse or the bounded regex build fails).
#[verifier::external_body]
fn glob_is_match(pattern: &str, text: &str) -> (r: Option<bool>)
    ensures
        r is Some <==> glob_ok(pattern@),
        r is Some ==> r->0 == glob_match(pattern@, text@),
{
    let g = match globset::Glob::new(pattern) {
        Ok(g) => g,
        Err(_) => return None,
    };
    let mut b = globset::GlobSetBuilder::new();
    b.add(g);
    match b.build() {
        Ok(set) => Some(set.is_match(text)),
        Err(_) => None,
    }
}

/// Relies on `regex::RegexBuilder` (`case_insensitive`, `build`): whether
/// the pattern compiles under the same configuration the matcher uses.
#[verifier::external_body]
fn regex_pattern_ok(pattern: &str, case_insensitive: bool) -> (r: bool)
    ensures
        r == regex_ok(pattern@, case_insensitive),
{
    regex::RegexBuilder::new(pattern).case_insensitive(case_insensitive).build().is_ok()
}

/// Relies on `regex::RegexBuilder` (`case_insensitive`, `build`) and
/// `Regex::is_match`: whether the subject matches; `None` exactly when the
/// pattern does not compile.
#[verifier::external_body]
fn regex_is_match(pattern: &str, case_insensitive: bool, text: &str) -> (r: Option<bool>)
    ensures
        r is Some <==> regex_ok(pattern@, case_insensitive),
        r is Some ==> r->0 == regex_match(pattern@, case_insensitive, text@),
{
    match regex::RegexBuilder::new(pattern).case_insensitive(case_insensitive).build() {
        Ok(re) => Some(re.is_match(text)),
        Err(_) => None,
    }
}

// ---------------------------------------------------------------------------
// The matching engine.
// ---------------------------------------------------------------------------
/// A pattern the engine can evaluate: its glob or regex text compiles.
pub open spec fn pattern_ok(p: PatternSpec, o: NormalizationOptions) -> bool {
    match p.kind {
        PatternKind::Glob => glob_ok(spec_normalize(p.value@, o)),
        PatternKind::Regex => regex_ok(p.value@, p.case_insensitive),
        PatternKind::Contains => true,
    }
}

/// Whether the pattern accepts the folder name under options `o`. Globs see
/// the normalized pattern and name; regexes see the raw pattern with their
/// case flag and the normalized name; substring patterns fold both sides
/// only when case-insensitive.
pub open spec fn spec_pattern_matches(p: PatternSpec, name: Seq<char>, o: NormalizationOptions) -> bool {
    match p.kind {
        PatternKind::Glob => glob_match(spec_normalize(p.value@, o), spec_normalize(name, o)),
        PatternKind::Regex => regex_match(p.value@, p.case_insensitive, spec_normalize(name, o)),
        PatternKind::Contains => if p.case_insensitive {
            spec_contains(spec_normalize(name, o), spec_normalize(p.value@, o))
        } else {
            spec_contains(name, p.value@)
        },
    }
}

/// Whether rule `i` is enabled and its pattern accepts the name.
pub open spec fn rule_matches(rules: Seq<Rule>, i: int, name: Seq<char>, o: NormalizationOptions) -> bool {
    rules[i].enabled && spec_pattern_matches(rules[i].pattern, name, o)
}

/// Whether some enabled exclusion rule accepts the name.
pub open spec fn spec_excluded(rules: Seq<Rule>, name: Seq<char>, o: NormalizationOptions) -> bool {
    exists|i: int|
        0 <= i < rules.len() && (#[trigger] rules[i]).pattern.is_exclude && rule_matches(
            rules,
            i,
            name,
            o,
        )
}

/// Whether rule `i` is an enabled, matching, non-exclusion rule.
pub open spec fn spec_candidate(rules: Seq<Rule>, i: int, name: Seq<char>, o: NormalizationOptions) -> bool {
    0 <= i < rules.len() && !rules[i].pattern.is_exclude && rule_matches(rules, i, name, o)
}

/// Whether rule `i` wins: it is a candidate, and every candidate has a
/// strictly larger priority or the same priority and no earlier position.
pub open spec fn spec_winner(rules: Seq<Rule>, i: int, name: Seq<char>, o: NormalizationOptions) -> bool {
    &&& spec_candidate(rules, i, name, o)
    &&& forall|j: int|
        spec_candidate(rules, j, name, o) ==> (rules[i].priority < (#[trigger] rules[j]).priority
            || (rules[i].priority == rules[j].priority && i <= j))
}

/// Applies the normalizer, whose `Result` is always `Ok`.
fn fold_text(normalizer: &TextNormalizer, s: &str) -> (r: String)
    ensures
        r@ == spec_normalize(s@, normalizer.options),
{
    match normalizer.normalize(s) {
        Ok(f) => f,
        Err(_) => {
            proof {
                assert(false);
            }
            String::new()
        },
    }
}

/// Evaluates folder names against a fixed rule list. Patterns are validated
/// once, at construction.
pub struct MatchingEngine {
    pub rules: Vec<Rule>,
    pub options: NormalizationOptions,
    pub normalizer: TextNormalizer,
}

impl MatchingEngine {
    pub open spec fn wf(&self) -> bool {
        &&& forall|i: int|
            0 <= i < self.rules@.len() ==> pattern_ok((#[trigger] self.rules@[i]).pattern, self.options)
        &&& self.normalizer.options == self.options
    }

    /// Builds an engine; fails with a `Pattern` error exactly when some
    /// rule's pattern does not compile.
    pub fn new(rules: Vec<Rule>, normalization: NormalizationOptions) -> (r: Result<
        Self,
        FileMoverError,
    >)
        ensures
            match r {
                Ok(engine) => {
                    &&& engine.rules@ == rules@
                    &&& engine.options == normalization
                    &&& engine.wf()
                },
                Err(e) => {
                    &&& e is Pattern
                    &&& exists|i: int|
                        0 <= i < rules@.len() && !pattern_ok(
                            (#[trigger] rules@[i]).pattern,
                            normalization,
                        )
                },
            },
    {
        let normalizer = TextNormalizer::new(normalization);
        let n = rules.len();
        let mut i: usize = 0;
        while i < n
            invariant
                i <= n,
                n == rules@.len(),
                normalizer.options == normalization,
                forall|k: int| 0 <= k < i ==> pattern_ok((#[trigger] rules@[k]).pattern, normalization),
            decreases n - i,
        {
            let p = &rules[i].pattern;
            let ok = match p.kind {
                PatternKind::Glob => {
                    let folded = fold_text(&normalizer, p.value.as_str());
                    glob_pattern_ok(folded.as_str())
                },
                PatternKind::Regex => regex_pattern_ok(p.value.as_str(), p.case_insensitive),
                PatternKind::Contains => true,
            };
            if !ok {
                proof {
                    assert(!pattern_ok(rules@[i as int].pattern, normalization));
                }
                return Err(FileMoverError::Pattern {
                    message: "pattern does not compile".to_owned(),
                });
            }
            i = i + 1;
        }
        Ok(Self { rules, options: normalization, normalizer })
    }

    /// Whether the pattern accepts the folder name. `raw_name` is the name
    /// as given; `folded_name` its normalization under the engine options.
    fn pattern_match(&self, p: &PatternSpec, raw_name: &str, folded_name: &str) -> (r: bool)
        requires
            pattern_ok(*p, self.options),
            self.normalizer.options == self.options,
            folded_name@ == spec_normalize(raw_name@, self.options),
        ensures
            r == spec_pattern_matches(*p, raw_name@, self.options),
    {
        match p.kind {
            PatternKind::Glob => {
                let folded_pat = fold_text(&self.normalizer, p.value.as_str());
                match glob_is_match(folded_pat.as_str(), folded_name) {
                    Some(b) => b,
                    None => {
                        proof {
                            assert(false);
                        }
                        false
                    },
                }
            },
            PatternKind::Regex => {
                match regex_is_match(p.value.as_str(), p.case_insensitive, folded_name) {
                    Some(b) => b,
                    None => {
                        proof {
                            assert(false);
                        }
                        false
                    },
                }
            },
            PatternKind::Contains => {
                if p.case_insensitive {
                    let folded_pat = fold_text(&self.normalizer, p.value.as_str());
                    contains_sub(folded_name, folded_pat.as_str())
                } else {
                    contains_sub(raw_name, p.value.as_str())
                }
            },
        }
    }

    /// Finds the winning rule for a folder name: `None` when an enabled
    /// exclusion rule matches or when no enabled routing rule does;
    /// otherwise the matching rule with the lowest priority, position in
    /// the list breaking ties.
    pub fn find_matching_rule(&self, folder_name: &str) -> (r: Result<Option<&Rule>, FileMoverError>)
        requires
            self.wf(),
        ensures
            r is Ok,
            match r->Ok_0 {
                Option::None => spec_excluded(self.rules@, folder_name@, self.options) || (
                forall|j: int| !spec_candidate(self.rules@, j, folder_name@, self.options)),
                Option::Some(rule) => {
                    &&& !spec_excluded(self.rules@, folder_name@, self.options)
                    &&& exists|i: int|
                        spec_winner(self.rules@, i, folder_name@, self.options) && *rule
                            == self.rules@[i]
                },
            },
    {
        let folded = match self.normalizer.normalize(folder_name) {
            Ok(f) => f,
            Err(e) => {
                proof {
                    assert(false);
                }
                return Err(e);
            },
        };
        let n = self.rules.len();
        let mut i: usize = 0;
        while i < n
            invariant
                i <= n,
                n == self.rules@.len(),
                self.wf(),
                folded@ == spec_normalize(folder_name@, self.options),
                forall|k: int|
                    0 <= k < i && (#[trigger] self.rules@[k]).pattern.is_exclude ==> !rule_matches(
                        self.rules@,
                        k,
                        folder_name@,
                        self.options,
                    ),
            decreases n - i,
        {
            let rule = &self.rules[i];
            if rule.enabled && rule.pattern.is_exclude {
                if self.pattern_match(&rule.pattern, folder_name, folded.as_str()) {
                    proof {
                        assert(self.rules@[i as int].pattern.is_exclude && rule_matches(
                            self.rules@,
                            i as int,
                            folder_name@,
                            self.options,
                        ));
                    }
                    return Ok(Option::None);
                }
            }
            i = i + 1;
        }
        let mut best: Option<usize> = Option::None;
        let mut j: usize = 0;
        while j < n
            invariant
                j <= n,
                n == self.rules@.len(),
                self.wf(),
                folded@ == spec_normalize(folder_name@, self.options),
                match best {
                    Option::None => forall|k: int|
                        0 <= k < j ==> !spec_candidate(self.rules@, k, folder_name@, self.options),
                    Option::Some(b) => {
                        &&& b < j
                        &&& spec_candidate(self.rules@, b as int, folder_name@, self.options)
                        &&& forall|k: int|
                            0 <= k < j && spec_candidate(self.rules@, k, folder_name@, self.options)
                                ==> (self.rules@[b as int].priority < (
                            #[trigger] self.rules@[k]).priority || (self.rules@[b as int].priority
                                == self.rules@[k].priority && b <= k))
                    },
                },
            decreases n - j,
        {
            let rule = &self.rules[j];
            if rule.enabled && !rule.pattern.is_exclude {
                if self.pattern_match(&rule.pattern, folder_name, folded.as_str()) {
                    match best {
                        Option::None => {
                            best = Option::Some(j);
                        },
                        Option::Some(b) => {
                            if rule.priority < self.rules[b].priority {
                                best = Option::Some(j);
                            }
                        },
                    }
                }
            }
            j = j + 1;
        }
        proof {
            if spec_excluded(self.rules@, folder_name@, self.options) {
                let i = choose|i: int|
                    0 <= i < self.rules@.len() && (#[trigger] self.rules@[i]).pattern.is_exclude
                        && rule_matches(self.rules@, i, folder_name@, self.options);
                assert(false);
            }
        }
        match best {
            Option::None => Ok(Option::None),
            Option::Some(b) => {
                proof {
                    assert(spec_winner(self.rules@, b as int, folder_name@, self.options));
                }
                Ok(Option::Some(&self.rules[b]))
            },
        }
    }
}

} // verus!
