//! Text normalization: canonical composition, width folding, diacritic
//! stripping and case folding, in that fixed order, each stage gated by an
//! option. Applied identically to pattern literals and subjects, so matching
//! holds modulo the fold.

use vstd::prelude::*;
use crate::pattern::NormalizationOptions;
use crate::error::FileMoverError;
use crate::text::{str_to_chars, chars_to_string, char_from_code};
use unicode_normalization::UnicodeNormalization;

verus! {

/// What `unicode_normalization`'s NFC iterator yields for this character
/// sequence; a function of the input alone.
pub uninterp spec fn nfc_of(s: Seq<char>) -> Seq<char>;

/// What `unicode_normalization`'s NFD iterator yields for this character
/// sequence; a function of the input alone.
pub uninterp spec fn nfd_of(s: Seq<char>) -> Seq<char>;

/// Whether `unicode_normalization` classifies the character as a combining
/// mark.
pub uninterp spec fn combining_mark(c: char) -> bool;

/// Relies on `unicode_normalization::UnicodeNormalization::nfc`: canonical
/// composition of the characters, a pure function of them. Composition is
/// idempotent, and text of ASCII characters alone is already composed.
#[verifier::external_body]
fn nfc_str(s: &str) -> (r: String)
    ensures
        r@ == nfc_of(s@),
        nfc_of(r@) == r@,
        vstd::utf8::is_ascii_chars(s@) ==> r@ == s@,
{
    s.nfc().collect()
}

/// Relies on `unicode_normalization::UnicodeNormalization::nfd`: canonical
/// decomposition of the characters, a pure function of them. Decomposition
/// is idempotent, and text of ASCII characters alone is already decomposed.
#[verifier::external_body]
fn nfd_str(s: &str) -> (r: String)
    ensures
        r@ == nfd_of(s@),
        nfd_of(r@) == r@,
        vstd::utf8::is_ascii_chars(s@) ==> r@ == s@,
{
    s.nfd().collect()
}

/// Relies on `unicode_normalization::char::is_combining_mark`.
#[verifier::external_body]
fn is_combining(c: char) -> (r: bool)
    ensures
        r == combining_mark(c),
{
    unicode_normalization::char::is_combining_mark(c)
}

/// Full-width digits, Latin letters and the ideographic space fold to their
/// half-width counterparts.
pub open spec fn width_fold_char(c: char) -> char {
    if 0xFF10 <= c as u32 <= 0xFF19 {
        ((c as u32 - 0xFF10 + 0x30) as u32) as char
    } else if 0xFF21 <= c as u32 <= 0xFF3A {
        ((c as u32 - 0xFF21 + 0x41) as u32) as char
    } else if 0xFF41 <= c as u32 <= 0xFF5A {
        ((c as u32 - 0xFF41 + 0x61) as u32) as char
    } else if c as u32 == 0x3000 {
        ' '
    } else {
        c
    }
}

/// Upper-case ASCII letters fold to lower case.
pub open spec fn case_fold_char(c: char) -> char {
    if 'A' <= c && c <= 'Z' {
        ((c as u32 + 0x20) as u32) as char
    } else {
        c
    }
}

pub open spec fn spec_width_fold(s: Seq<char>) -> Seq<char> {
    s.map_values(|c: char| width_fold_char(c))
}

pub open spec fn spec_case_fold(s: Seq<char>) -> Seq<char> {
    s.map_values(|c: char| case_fold_char(c))
}

/// The decomposition of `s` with its combining marks removed.
pub open spec fn spec_strip_marks(s: Seq<char>) -> Seq<char>
    decreases s.len(),
{
    if s.len() == 0 {
        Seq::empty()
    } else {
        spec_strip_marks(s.drop_last()) + (if combining_mark(s.last()) {
            Seq::<char>::empty()
        } else {
            seq![s.last()]
        })
    }
}

/// The full normalization pipeline in its fixed order.
pub open spec fn spec_normalize(s: Seq<char>, o: NormalizationOptions) -> Seq<char> {
    let s1 = if o.normalize_unicode {
        nfc_of(s)
    } else {
        s
    };
    let s2 = if o.normalize_width {
        spec_width_fold(s1)
    } else {
        s1
    };
    let s3 = if o.strip_diacritics {
        spec_strip_marks(nfd_of(s2))
    } else {
        s2
    };
    if o.normalize_case {
        spec_case_fold(s3)
    } else {
        s3
    }
}

fn width_fold_char_exec(c: char) -> (r: char)
    ensures
        r == width_fold_char(c),
{
    let u = c as u32;
    if 0xFF10 <= u && u <= 0xFF19 {
        char_from_code(u - 0xFF10 + 0x30)
    } else if 0xFF21 <= u && u <= 0xFF3A {
        char_from_code(u - 0xFF21 + 0x41)
    } else if 0xFF41 <= u && u <= 0xFF5A {
        char_from_code(u - 0xFF41 + 0x61)
    } else if u == 0x3000 {
        ' '
    } else {
        c
    }
}

fn case_fold_char_exec(c: char) -> (r: char)
    ensures
        r == case_fold_char(c),
{
    if 'A' <= c && c <= 'Z' {
        char_from_code(c as u32 + 0x20)
    } else {
        c
    }
}

fn width_fold(s: &str) -> (r: String)
    ensures
        r@ == spec_width_fold(s@),
{
    let v = str_to_chars(s);
    let n = v.len();
    let mut out: Vec<char> = Vec::new();
    let mut i: usize = 0;
    while i < n
        invariant
            i <= n,
            n == v@.len(),
            v@ == s@,
            out@ == s@.subrange(0, i as int).map_values(|c: char| width_fold_char(c)),
        decreases n - i,
    {
        out.push(width_fold_char_exec(v[i]));
        i = i + 1;
        proof {
            assert(out@ =~= s@.subrange(0, i as int).map_values(|c: char| width_fold_char(c)));
        }
    }
    proof {
        assert(s@.subrange(0, n as int) =~= s@);
        assert(out@ =~= spec_width_fold(s@));
    }
    chars_to_string(&out)
}

fn case_fold(s: &str) -> (r: String)
    ensures
        r@ == spec_case_fold(s@),
{
    let v = str_to_chars(s);
    let n = v.len();
    let mut out: Vec<char> = Vec::new();
    let mut i: usize = 0;
    while i < n
        invariant
            i <= n,
            n == v@.len(),
            v@ == s@,
            out@ == s@.subrange(0, i as int).map_values(|c: char| case_fold_char(c)),
        decreases n - i,
    {
        out.push(case_fold_char_exec(v[i]));
        i = i + 1;
        proof {
            assert(out@ =~= s@.subrange(0, i as int).map_values(|c: char| case_fold_char(c)));
        }
    }
    proof {
        assert(s@.subrange(0, n as int) =~= s@);
        assert(out@ =~= spec_case_fold(s@));
    }
    chars_to_string(&out)
}

/// Removes the combining marks from an already-decomposed string.
fn strip_marks(s: &str) -> (r: String)
    ensures
        r@ == spec_strip_marks(s@),
{
    let v = str_to_chars(s);
    let n = v.len();
    let mut out: Vec<char> = Vec::new();
    let mut i: usize = 0;
    while i < n
        invariant
            i <= n,
            n == v@.len(),
            v@ == s@,
            out@ == spec_strip_marks(s@.subrange(0, i as int)),
        decreases n - i,
    {
        let c = v[i];
        let keep = !is_combining(c);
        proof {
            assert(s@.subrange(0, i + 1).drop_last() =~= s@.subrange(0, i as int));
            assert(s@.subrange(0, i + 1).last() == s@[i as int]);
        }
        if keep {
            out.push(c);
        }
        i = i + 1;
        proof {
            assert(out@ =~= spec_strip_marks(s@.subrange(0, i as int)));
        }
    }
    proof {
        assert(s@.subrange(0, n as int) =~= s@);
    }
    chars_to_string(&out)
}

/// Applies the normalization pipeline of its options.
pub struct TextNormalizer {
    pub options: NormalizationOptions,
}

impl TextNormalizer {
    pub fn new(options: NormalizationOptions) -> (r: Self)
        ensures
            r.options == options,
    {
        Self { options }
    }

    /// Folds `text` according to the options. Never fails; the `Result`
    /// shape is kept for the engine's construction-time callers.
    pub fn normalize(&self, text: &str) -> (r: Result<String, FileMoverError>)
        ensures
            r is Ok,
            r->Ok_0@ == spec_normalize(text@, self.options),
    {
        let mut cur: String = text.to_owned();
        if self.options.normalize_unicode {
            cur = nfc_str(cur.as_str());
        }
        if self.options.normalize_width {
            cur = width_fold(cur.as_str());
        }
        if self.options.strip_diacritics {
            let decomposed = nfd_str(cur.as_str());
            cur = strip_marks(decomposed.as_str());
        }
        if self.options.normalize_case {
            cur = case_fold(cur.as_str());
        }
        Ok(cur)
    }
}

} // verus!
