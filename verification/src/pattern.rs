//! Pattern specifications and text-normalization options.

use vstd::prelude::*;

verus! {

#[derive(Debug, Clone, Copy, PartialEq, Eq, Hash)]
pub enum PatternKind {
    Glob,
    Regex,
    Contains,
}

/// An immutable matching pattern: its kind, its literal text, whether it is
/// an exclusion pattern, and whether it matches case-insensitively.
#[derive(Debug, Clone, PartialEq)]
pub struct PatternSpec {
    pub kind: PatternKind,
    pub value: String,
    pub is_exclude: bool,
    pub case_insensitive: bool,
}

impl PatternSpec {
    pub fn new_glob(pattern: &str) -> (r: Self)
        ensures
            r.kind == PatternKind::Glob,
            r.value@ == pattern@,
            !r.is_exclude,
            r.case_insensitive,
    {
        Self { kind: PatternKind::Glob, value: pattern.to_owned(), is_exclude: false, case_insensitive: true }
    }

    pub fn new_regex(pattern: &str) -> (r: Self)
        ensures
            r.kind == PatternKind::Regex,
            r.value@ == pattern@,
            !r.is_exclude,
            r.case_insensitive,
    {
        Self { kind: PatternKind::Regex, value: pattern.to_owned(), is_exclude: false, case_insensitive: true }
    }

    pub fn new_contains(pattern: &str) -> (r: Self)
        ensures
            r.kind == PatternKind::Contains,
            r.value@ == pattern@,
            !r.is_exclude,
            r.case_insensitive,
    {
        Self { kind: PatternKind::Contains, value: pattern.to_owned(), is_exclude: false, case_insensitive: true }
    }

    pub fn exclude(self) -> (r: Self)
        ensures
            r == (Self { is_exclude: true, ..self }),
    {
        Self { is_exclude: true, ..self }
    }

    pub fn case_sensitive(self) -> (r: Self)
        ensures
            r == (Self { case_insensitive: false, ..self }),
    {
        Self { case_insensitive: false, ..self }
    }
}

/// Which folding stages `normalize` applies, in their fixed order:
/// canonical composition, width folding, diacritic stripping, case folding.
#[derive(Debug, Clone, Copy, PartialEq)]
pub struct NormalizationOptions {
    pub normalize_unicode: bool,
    pub normalize_width: bool,
    pub strip_diacritics: bool,
    pub normalize_case: bool,
}

impl NormalizationOptions {
    /// The default folding: canonical composition and width and case folding
    /// on, diacritic stripping off.
    pub fn standard() -> (r: Self)
        ensures
            r.normalize_unicode,
            r.normalize_width,
            !r.strip_diacritics,
            r.normalize_case,
    {
        Self {
            normalize_unicode: true,
            normalize_width: true,
            strip_diacritics: false,
            normalize_case: true,
        }
    }
}

impl Default for NormalizationOptions {
    fn default() -> (r: Self)
        ensures
            r.normalize_unicode,
            r.normalize_width,
            !r.strip_diacritics,
            r.normalize_case,
    {
        Self::standard()
    }
}

} // verus!
