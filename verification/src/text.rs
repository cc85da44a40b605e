//! Character-level helpers shared by the path, template and codec modules.

use vstd::prelude::*;
use crate::error::FileMoverError;

verus! {

/// Collects the characters of a string slice into a vector.
pub fn str_to_chars(s: &str) -> (v: Vec<char>)
    ensures
        v@ == s@,
{
    let n = s.unicode_len();
    let mut v: Vec<char> = Vec::new();
    let mut i: usize = 0;
    while i < n
        invariant
            i <= n,
            n == s@.len(),
            v@ == s@.subrange(0, i as int),
        decreases n - i,
    {
        v.push(s.get_char(i));
        i = i + 1;
        proof {
            assert(v@ =~= s@.subrange(0, i as int));
        }
    }
    proof {
        assert(v@ =~= s@);
    }
    v
}

/// Character vectors compared by value.
pub fn chars_eq(a: &Vec<char>, b: &Vec<char>) -> (r: bool)
    ensures
        r == (a@ == b@),
{
    let n = a.len();
    if n != b.len() {
        return false;
    }
    let mut i: usize = 0;
    while i < n
        invariant
            i <= n,
            n == a@.len(),
            n == b@.len(),
            forall|j: int| 0 <= j < i ==> a@[j] == b@[j],
        decreases n - i,
    {
        if a[i] != b[i] {
            return false;
        }
        i = i + 1;
    }
    proof {
        assert(a@ =~= b@);
    }
    true
}

/// String slices compared by value.
pub fn eq_str(a: &str, b: &str) -> (r: bool)
    ensures
        r == (a@ == b@),
{
    let va = str_to_chars(a);
    let vb = str_to_chars(b);
    chars_eq(&va, &vb)
}

/// Relies on `String: FromIterator<char>`: collecting chars yields the string
/// with exactly those characters.
#[verifier::external_body]
pub fn chars_to_string(v: &Vec<char>) -> (s: String)
    ensures
        s@ == v@,
{
    v.iter().collect()
}

/// Relies on `char::from_u32`: a code below the surrogate range or above it
/// (and within the scalar maximum) converts to the char with that code.
#[verifier::external_body]
pub fn char_from_code(code: u32) -> (c: char)
    requires
        code < 0xD800 || (0xE000 <= code && code <= 0x10FFFF),
    ensures
        c as u32 == code,
        c == code as char,
{
    match char::from_u32(code) {
        Some(c) => c,
        None => ' ',
    }
}


/// The scalar values of a zero-terminated UTF-16 name, read up to the
/// first zero unit: a basic unit stands for itself and a high surrogate
/// followed by a low one makes one supplementary value. `None` when a
/// surrogate stands without its partner before the terminator.
pub open spec fn spec_utf16_scalars(u: Seq<u16>) -> Option<Seq<u32>>
    decreases u.len(),
{
    if u.len() == 0 || u[0] == 0 {
        Some(Seq::empty())
    } else if u[0] < 0xD800 || u[0] >= 0xE000 {
        match spec_utf16_scalars(u.skip(1)) {
            Option::Some(rest) => Some(seq![u[0] as u32] + rest),
            Option::None => None,
        }
    } else if u[0] < 0xDC00 && u.len() >= 2 && 0xDC00 <= u[1] < 0xE000 {
        match spec_utf16_scalars(u.skip(2)) {
            Option::Some(rest) => Some(
                seq![(0x10000 + (u[0] - 0xD800) * 0x400 + (u[1] - 0xDC00)) as u32] + rest,
            ),
            Option::None => None,
        }
    } else {
        None
    }
}

/// Decodes a zero-terminated UTF-16 name, as the platform's directory
/// enumeration hands them out: units after the first zero are ignored, and
/// a surrogate without its partner is a `Pattern` error.
pub fn utf16_to_string(units: &Vec<u16>) -> (r: Result<String, FileMoverError>)
    ensures
        r is Ok <==> spec_utf16_scalars(units@) is Some,
        r is Ok ==> r->Ok_0@.len() == spec_utf16_scalars(units@)->0.len(),
        r is Ok ==> forall|q: int|
            0 <= q < r->Ok_0@.len() ==> (#[trigger] r->Ok_0@[q]) as u32 == spec_utf16_scalars(
                units@,
            )->0[q],
        r is Err ==> r->Err_0 is Pattern,
{
    let n = units.len();
    let mut out: Vec<char> = Vec::new();
    let mut i: usize = 0;
    proof {
        assert(units@.skip(0) =~= units@);
        assert(out@.map_values(|c: char| c as u32) =~= Seq::<u32>::empty());
    }
    while i < n
        invariant
            i <= n,
            n == units@.len(),
            spec_utf16_scalars(units@) is Some <==> spec_utf16_scalars(
                units@.skip(i as int),
            ) is Some,
            spec_utf16_scalars(units@) is Some ==> spec_utf16_scalars(units@)->0 == out@.map_values(
                |c: char| c as u32,
            ) + spec_utf16_scalars(units@.skip(i as int))->0,
        decreases n - i,
    {
        let ghost i0 = i as int;
        let ghost s = units@.skip(i0);
        let ghost pre = out@;
        proof {
            assert(s.len() == n - i0);
            assert(s[0] == units@[i0]);
        }
        let u0 = units[i];
        if u0 == 0 {
            proof {
                assert(spec_utf16_scalars(s) == Some(Seq::<u32>::empty()));
                assert(spec_utf16_scalars(units@)->0 =~= out@.map_values(|c: char| c as u32));
            }
            return Ok(chars_to_string(&out));
        }
        if u0 < 0xD800 || u0 >= 0xE000 {
            out.push(char_from_code(u0 as u32));
            i = i + 1;
            proof {
                assert(s.skip(1) =~= units@.skip(i as int));
            }
        } else if u0 < 0xDC00 && i + 1 < n && 0xDC00 <= units[i + 1] && units[i + 1] < 0xE000 {
            let u1 = units[i + 1];
            proof {
                assert(s[1] == units@[i0 + 1]);
            }
            let code: u32 = 0x10000 + ((u0 as u32 - 0xD800) * 0x400) + (u1 as u32 - 0xDC00);
            out.push(char_from_code(code));
            i = i + 2;
            proof {
                assert(s.skip(2) =~= units@.skip(i as int));
            }
        } else {
            proof {
                assert(spec_utf16_scalars(s) is None);
            }
            return Err(FileMoverError::Pattern {
                message: "the name holds an unpaired UTF-16 surrogate".to_owned(),
            });
        }
        proof {
            assert(out@.map_values(|c: char| c as u32) =~= pre.map_values(|c: char| c as u32)
                + seq![out@[out@.len() - 1] as u32]);
            if spec_utf16_scalars(units@) is Some {
                assert(spec_utf16_scalars(units@)->0 =~= out@.map_values(|c: char| c as u32)
                    + spec_utf16_scalars(units@.skip(i as int))->0);
            }
        }
    }
    proof {
        assert(units@.skip(n as int) =~= Seq::<u16>::empty());
        assert(spec_utf16_scalars(units@)->0 =~= out@.map_values(|c: char| c as u32));
    }
    Ok(chars_to_string(&out))
}

} // verus!
