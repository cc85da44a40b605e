//! Decimal rendering of unsigned numbers, used by the auto-renamer, the
//! template engine and the plan codec.

use vstd::prelude::*;

verus! {

/// The decimal digit character for a value below ten.
pub open spec fn digit_char(d: int) -> char {
    if d == 0 {
        '0'
    } else if d == 1 {
        '1'
    } else if d == 2 {
        '2'
    } else if d == 3 {
        '3'
    } else if d == 4 {
        '4'
    } else if d == 5 {
        '5'
    } else if d == 6 {
        '6'
    } else if d == 7 {
        '7'
    } else if d == 8 {
        '8'
    } else {
        '9'
    }
}

/// Whether `c` is a decimal digit character.
pub open spec fn is_digit(c: char) -> bool {
    c == '0' || c == '1' || c == '2' || c == '3' || c == '4' || c == '5' || c == '6' || c == '7'
        || c == '8' || c == '9'
}

/// The value of a decimal digit character.
pub open spec fn digit_val(c: char) -> int {
    if c == '0' {
        0
    } else if c == '1' {
        1
    } else if c == '2' {
        2
    } else if c == '3' {
        3
    } else if c == '4' {
        4
    } else if c == '5' {
        5
    } else if c == '6' {
        6
    } else if c == '7' {
        7
    } else if c == '8' {
        8
    } else {
        9
    }
}

/// The decimal rendering of `n`, most significant digit first, no leading
/// zeros (except for `n == 0` itself).
pub open spec fn spec_dec(n: nat) -> Seq<char>
    decreases n,
{
    if n < 10 {
        seq![digit_char(n as int)]
    } else {
        spec_dec(n / 10) + seq![digit_char((n % 10) as int)]
    }
}

/// The decimal rendering of `n`, left-padded with zeros to width `w`.
pub open spec fn spec_dec_pad(n: nat, w: int) -> Seq<char> {
    if spec_dec(n).len() >= w {
        spec_dec(n)
    } else {
        Seq::new((w - spec_dec(n).len()) as nat, |i: int| '0') + spec_dec(n)
    }
}

/// The digit character of a value below ten.
pub fn digit_to_char(d: u64) -> (c: char)
    requires
        d < 10,
    ensures
        c == digit_char(d as int),
{
    if d == 0 {
        '0'
    } else if d == 1 {
        '1'
    } else if d == 2 {
        '2'
    } else if d == 3 {
        '3'
    } else if d == 4 {
        '4'
    } else if d == 5 {
        '5'
    } else if d == 6 {
        '6'
    } else if d == 7 {
        '7'
    } else if d == 8 {
        '8'
    } else {
        '9'
    }
}

/// Renders `n` in decimal.
pub fn u64_to_dec_chars(n: u64) -> (v: Vec<char>)
    ensures
        v@ == spec_dec(n as nat),
{
    let mut out: Vec<char> = Vec::new();
    out.push(digit_to_char(n % 10));
    let mut m: u64 = n / 10;
    proof {
        assert(m > 0 ==> spec_dec(n as nat) == spec_dec(m as nat) + out@);
        assert(m == 0 ==> spec_dec(n as nat) =~= out@);
    }
    while m > 0
        invariant
            m > 0 ==> spec_dec(n as nat) == spec_dec(m as nat) + out@,
            m == 0 ==> spec_dec(n as nat) == out@,
        decreases m,
    {
        let d = m % 10;
        out.insert(0, digit_to_char(d));
        let ghost prev = m;
        m = m / 10;
        proof {
            if m > 0 {
                assert(spec_dec(prev as nat) == spec_dec(m as nat) + seq![
                    digit_char(d as int),
                ]);
                assert(spec_dec(n as nat) =~= spec_dec(m as nat) + out@);
            } else {
                assert(spec_dec(prev as nat) == seq![digit_char(d as int)]);
                assert(spec_dec(n as nat) =~= out@);
            }
        }
    }
    out
}

/// Renders `n` in decimal, left-padded with zeros to width `w`.
pub fn u64_to_dec_chars_pad(n: u64, w: usize) -> (v: Vec<char>)
    ensures
        v@ == spec_dec_pad(n as nat, w as int),
{
    let mut out = u64_to_dec_chars(n);
    let ghost bare = out@;
    if out.len() >= w {
        return out;
    }
    let pad = w - out.len();
    let mut i: usize = 0;
    while i < pad
        invariant
            i <= pad,
            out@ == Seq::new(i as nat, |j: int| '0') + bare,
            pad == w - bare.len(),
            bare.len() < w,
        decreases pad - i,
    {
        out.insert(0, '0');
        i = i + 1;
        proof {
            assert(out@ =~= Seq::new(i as nat, |j: int| '0') + bare);
        }
    }
    proof {
        assert(out@ =~= spec_dec_pad(n as nat, w as int));
    }
    out
}

/// The rendering of a number never starts with a zero unless the number is
/// zero itself.
pub proof fn lemma_dec_len(n: nat)
    ensures
        spec_dec(n).len() >= 1,
        forall|i: int| 0 <= i < spec_dec(n).len() ==> is_digit(#[trigger] spec_dec(n)[i]),
        n >= 1 ==> spec_dec(n)[0] != '0',
    decreases n,
{
    if n >= 10 {
        lemma_dec_len(n / 10);
    }
}

} // verus!
