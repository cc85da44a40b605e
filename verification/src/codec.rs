//! A canonical textual form for plans and journals, in line-free JSON with a
//! fixed key order, together with the proof that reading back what was
//! written yields the value that was written.

use vstd::prelude::*;
use crate::num::{spec_dec, spec_dec_pad, is_digit, digit_val, digit_char, u64_to_dec_chars,
    u64_to_dec_chars_pad, digit_to_char, lemma_dec_len};
use crate::text::{str_to_chars, chars_to_string, eq_str};
use crate::journal::{Timestamp, JournalEntry, ResultKind};
use crate::plan::{OpKind, Conflict, Permission, PlanNode, PlanNodeId, PlanSummary, MovePlan};
use crate::rule::Warning;
use crate::error::FileMoverError;

verus! {

// ---------------------------------------------------------------------------
// Serialized forms.
// ---------------------------------------------------------------------------
/// A string character as escaped inside quotes.
pub open spec fn esc_char(c: char) -> Seq<char> {
    if c == '"' || c == '\\' {
        seq!['\\', c]
    } else {
        seq![c]
    }
}

/// A string body with its quotes' and escapes' characters escaped.
pub open spec fn esc(s: Seq<char>) -> Seq<char>
    decreases s.len(),
{
    if s.len() == 0 {
        Seq::empty()
    } else {
        esc(s.drop_last()) + esc_char(s.last())
    }
}

/// A quoted, escaped string.
pub open spec fn ser_str(s: Seq<char>) -> Seq<char> {
    seq!['"'] + esc(s) + seq!['"']
}

/// Escaping distributes over concatenation.
pub proof fn lemma_esc_add(a: Seq<char>, b: Seq<char>)
    ensures
        esc(a + b) == esc(a) + esc(b),
    decreases b.len(),
{
    if b.len() == 0 {
        assert(a + b =~= a);
        assert(esc(a) + esc(b) =~= esc(a));
    } else {
        lemma_esc_add(a, b.drop_last());
        assert((a + b).drop_last() =~= a + b.drop_last());
        assert((a + b).last() == b.last());
        assert(esc(a) + esc(b) =~= esc(a) + (esc(b.drop_last()) + esc_char(b.last())));
    }
}

/// A nonempty string escapes as its first character's escape followed by the
/// escape of the rest.
pub proof fn lemma_esc_first(s: Seq<char>)
    requires
        s.len() > 0,
    ensures
        esc(s) == esc_char(s.first()) + esc(s.drop_first()),
{
    assert(s =~= seq![s.first()] + s.drop_first());
    lemma_esc_add(seq![s.first()], s.drop_first());
    assert(esc(seq![s.first()]) =~= esc_char(s.first())) by {
        assert(seq![s.first()].drop_last() =~= Seq::<char>::empty());
        assert(seq![s.first()].last() == s.first());
        assert(esc(Seq::<char>::empty()) + esc_char(s.first()) =~= esc_char(s.first()));
    }
}

// ---------------------------------------------------------------------------
// Parsing primitives.
// ---------------------------------------------------------------------------
/// The first position at or after `pos` that does not hold a digit.
pub open spec fn digits_end(v: Seq<char>, pos: int) -> int
    decreases v.len() - pos,
{
    if pos < 0 || pos >= v.len() || !is_digit(v[pos]) {
        pos
    } else {
        digits_end(v, pos + 1)
    }
}

/// The value of the digits in `[pos, end)`, accumulated onto `acc`.
pub open spec fn digits_val(v: Seq<char>, pos: int, end: int, acc: nat) -> nat
    decreases end - pos,
{
    if pos >= end {
        acc
    } else {
        digits_val(v, pos + 1, end, acc * 10 + digit_val(v[pos]) as nat)
    }
}

/// A greedy decimal number: its value and the position after it.
pub open spec fn p_u64(v: Seq<char>, pos: int) -> Option<(nat, int)> {
    if 0 <= pos < v.len() && is_digit(v[pos]) {
        Some((digits_val(v, pos, digits_end(v, pos), 0), digits_end(v, pos)))
    } else {
        None
    }
}

/// Ten to the `k`.
pub open spec fn pow10(k: nat) -> nat
    decreases k,
{
    if k == 0 {
        1
    } else {
        10 * pow10((k - 1) as nat)
    }
}

pub proof fn lemma_digits_end_range(v: Seq<char>, pos: int, end: int)
    requires
        0 <= pos <= end <= v.len(),
        forall|m: int| pos <= m < end ==> is_digit(#[trigger] v[m]),
        end == v.len() || !is_digit(v[end]),
    ensures
        digits_end(v, pos) == end,
    decreases end - pos,
{
    if pos < end {
        lemma_digits_end_range(v, pos + 1, end);
    }
}

/// Extending the digit range by one position multiplies by ten and adds the
/// new digit.
pub proof fn lemma_digits_val_snoc(v: Seq<char>, pos: int, end: int, acc: nat)
    requires
        pos <= end,
    ensures
        digits_val(v, pos, end + 1, acc) == digits_val(v, pos, end, acc) * 10 + digit_val(
            v[end],
        ) as nat,
    decreases end - pos,
{
    if pos < end {
        lemma_digits_val_snoc(v, pos + 1, end, acc * 10 + digit_val(v[pos]) as nat);
    } else {
        assert(digits_val(v, pos, end + 1, acc) == digits_val(
            v,
            pos + 1,
            end + 1,
            acc * 10 + digit_val(v[pos]) as nat,
        ));
        assert(digits_val(v, pos + 1, end + 1, acc * 10 + digit_val(v[pos]) as nat) == acc * 10
            + digit_val(v[pos]) as nat);
    }
}

/// The value of the rendering of `n`, read at `pos` onto `acc`.
pub proof fn lemma_dec_val(v: Seq<char>, pos: int, n: nat, acc: nat)
    requires
        0 <= pos,
        pos + spec_dec(n).len() <= v.len(),
        v.subrange(pos, pos + spec_dec(n).len()) == spec_dec(n),
    ensures
        digits_val(v, pos, pos + spec_dec(n).len(), acc) == acc * pow10(spec_dec(n).len()) + n,
    decreases n,
{
    lemma_dec_len(n);
    if n < 10 {
        assert(v[pos] == digit_char(n as int)) by {
            assert(v[pos] == v.subrange(pos, pos + spec_dec(n).len())[0]);
        }
        assert(digit_val(digit_char(n as int)) == n);
        assert(digits_val(v, pos, pos + 1, acc) == acc * 10 + n) by {
            assert(digits_val(v, pos, pos + 1, acc) == digits_val(
                v,
                pos + 1,
                pos + 1,
                acc * 10 + digit_val(v[pos]) as nat,
            ));
        }
        assert(pow10(0) == 1);
        assert(pow10(1) == 10);
    } else {
        let hd = spec_dec((n / 10) as nat);
        let l = spec_dec(n).len();
        assert(spec_dec(n) == hd + seq![digit_char((n % 10) as int)]);
        assert(v.subrange(pos, pos + hd.len() as int) =~= hd) by {
            assert(forall|m: int|
                0 <= m < hd.len() ==> v.subrange(pos, pos + l as int)[m] == #[trigger] hd[m]);
        }
        lemma_dec_val(v, pos, (n / 10) as nat, acc);
        lemma_digits_val_snoc(v, pos, pos + hd.len() as int, acc);
        assert(v[pos + hd.len()] == spec_dec(n)[l - 1]);
        assert(v[pos + hd.len()] == digit_char((n % 10) as int));
        assert(digit_val(digit_char((n % 10) as int)) == n % 10);
        assert((acc * pow10(hd.len()) + n / 10) * 10 + n % 10 == acc * (pow10(hd.len()) * 10) + (n
            / 10) * 10 + n % 10) by (nonlinear_arith);
        assert(pow10(l) == pow10(hd.len()) * 10) by {
            assert(pow10(l) == 10 * pow10((l - 1) as nat));
            assert(10 * pow10(hd.len()) == pow10(hd.len()) * 10) by (nonlinear_arith);
        }
    }
}

/// Reading a rendered number back yields the number: the inversion of the
/// decimal rendering.
pub proof fn lemma_parse_u64(v: Seq<char>, pos: int, n: nat)
    requires
        0 <= pos,
        pos + spec_dec(n).len() <= v.len(),
        v.subrange(pos, pos + spec_dec(n).len()) == spec_dec(n),
        pos + spec_dec(n).len() == v.len() || !is_digit(v[pos + spec_dec(n).len()]),
    ensures
        p_u64(v, pos) == Some((n, pos + spec_dec(n).len())),
{
    lemma_dec_len(n);
    let l = spec_dec(n).len() as int;
    assert forall|m: int| pos <= m < pos + l implies is_digit(#[trigger] v[m]) by {
        assert(v[m] == spec_dec(n)[m - pos]);
    }
    assert(is_digit(v[pos])) by {
        assert(v[pos] == spec_dec(n)[0]);
    }
    lemma_digits_end_range(v, pos, pos + l);
    lemma_dec_val(v, pos, n, 0);
}

/// A fixed-width decimal number: the value of exactly `k` digits.
pub open spec fn p_fixed(v: Seq<char>, pos: int, k: int) -> Option<nat> {
    if 0 <= pos && pos + k <= v.len() && (forall|m: int| pos <= m < pos + k ==> is_digit(
        #[trigger] v[m],
    )) {
        Some(digits_val(v, pos, pos + k, 0))
    } else {
        None
    }
}

/// Digit positions can be read in two stages.
pub proof fn lemma_digits_val_split(v: Seq<char>, a: int, b: int, c: int, acc: nat)
    requires
        a <= b <= c,
    ensures
        digits_val(v, a, c, acc) == digits_val(v, b, c, digits_val(v, a, b, acc)),
    decreases b - a,
{
    if a < b {
        lemma_digits_val_split(v, a + 1, b, c, acc * 10 + digit_val(v[a]) as nat);
    }
}

/// Leading zeros contribute nothing to an accumulator of zero.
pub proof fn lemma_zeros_val(v: Seq<char>, pos: int, end: int)
    requires
        pos <= end,
        forall|m: int| pos <= m < end ==> #[trigger] v[m] == '0',
    ensures
        digits_val(v, pos, end, 0) == 0,
    decreases end - pos,
{
    if pos < end {
        lemma_zeros_val(v, pos + 1, end);
    }
}

/// Reading a zero-padded rendering of width `k` back yields the number.
pub proof fn lemma_parse_fixed(v: Seq<char>, pos: int, n: nat, k: int)
    requires
        0 <= pos,
        spec_dec(n).len() <= k,
        pos + k <= v.len(),
        v.subrange(pos, pos + k) == spec_dec_pad(n, k),
    ensures
        p_fixed(v, pos, k) == Some(n),
{
    lemma_dec_len(n);
    let z = k - spec_dec(n).len() as int;
    assert(spec_dec_pad(n, k) == Seq::new(z as nat, |i: int| '0') + spec_dec(n));
    assert forall|m: int| pos <= m < pos + k implies is_digit(#[trigger] v[m]) by {
        assert(v[m] == spec_dec_pad(n, k)[m - pos]);
        if m - pos < z {
            assert(v[m] == '0');
        } else {
            assert(v[m] == spec_dec(n)[m - pos - z]);
        }
    }
    assert forall|m: int| pos <= m < pos + z implies #[trigger] v[m] == '0' by {
        assert(v[m] == spec_dec_pad(n, k)[m - pos]);
    }
    lemma_zeros_val(v, pos, pos + z);
    lemma_digits_val_split(v, pos, pos + z, pos + k, 0);
    assert(v.subrange(pos + z, pos + k) =~= spec_dec(n)) by {
        assert forall|m: int|
            0 <= m < spec_dec(n).len() implies v.subrange(pos + z, pos + k)[m] == #[trigger] spec_dec(
            n,
        )[m] by {
            assert(v[pos + z + m] == v.subrange(pos, pos + k)[z + m]);
        }
    }
    lemma_dec_val(v, pos + z, n, 0);
    assert(0 * pow10(spec_dec(n).len()) == 0) by (nonlinear_arith);
}

/// An exact literal: the position after it when it sits at `pos`.
pub open spec fn p_lit(v: Seq<char>, pos: int, lit: Seq<char>) -> Option<int> {
    if 0 <= pos && pos + lit.len() <= v.len() && v.subrange(pos, pos + lit.len() as int) == lit {
        Some(pos + lit.len() as int)
    } else {
        None
    }
}

/// A literal written at `pos` is found there.
pub proof fn lemma_parse_lit(v: Seq<char>, pos: int, lit: Seq<char>)
    requires
        0 <= pos,
        pos + lit.len() <= v.len(),
        v.subrange(pos, pos + lit.len() as int) == lit,
    ensures
        p_lit(v, pos, lit) == Some(pos + lit.len() as int),
{
}

/// The body of a quoted string from `pos`: the characters up to the closing
/// quote, unescaped, and the position after that quote.
pub open spec fn p_str_body(v: Seq<char>, pos: int) -> Option<(Seq<char>, int)>
    decreases v.len() - pos,
{
    if pos < 0 || pos >= v.len() {
        None
    } else if v[pos] == '"' {
        Some((Seq::empty(), pos + 1))
    } else if v[pos] == '\\' {
        if pos + 1 >= v.len() {
            None
        } else {
            match p_str_body(v, pos + 2) {
                Option::None => None,
                Option::Some((s, e)) => Some((seq![v[pos + 1]] + s, e)),
            }
        }
    } else {
        match p_str_body(v, pos + 1) {
            Option::None => None,
            Option::Some((s, e)) => Some((seq![v[pos]] + s, e)),
        }
    }
}

/// A quoted string: its unescaped body and the position after it.
pub open spec fn p_str(v: Seq<char>, pos: int) -> Option<(Seq<char>, int)> {
    if 0 <= pos < v.len() && v[pos] == '"' {
        p_str_body(v, pos + 1)
    } else {
        None
    }
}

/// Reading an escaped body back yields the original characters: the
/// inversion of escaping.
pub proof fn lemma_parse_str_body(v: Seq<char>, pos: int, s: Seq<char>)
    requires
        0 <= pos,
        pos + esc(s).len() + 1 <= v.len(),
        v.subrange(pos, pos + esc(s).len() as int) == esc(s),
        v[pos + esc(s).len()] == '"',
    ensures
        p_str_body(v, pos) == Some((s, pos + esc(s).len() + 1)),
    decreases s.len(),
{
    if s.len() == 0 {
        assert(v[pos] == '"');
    } else {
        lemma_esc_first(s);
        let c = s.first();
        let e0 = esc_char(c);
        let rest = esc(s.drop_first());
        assert(esc(s) == e0 + rest);
        assert(v[pos] == esc(s)[0]);
        let shift = e0.len() as int;
        assert(v.subrange(pos + shift, pos + shift + rest.len() as int) =~= rest) by {
            assert(forall|m: int|
                0 <= m < rest.len() ==> v.subrange(pos, pos + esc(s).len() as int)[shift + m] == (
                #[trigger] rest[m]));
        }
        lemma_parse_str_body(v, pos + shift, s.drop_first());
        if c == '"' || c == '\\' {
            assert(v[pos] == '\\');
            assert(v[pos + 1] == esc(s)[1]);
            assert(v[pos + 1] == c);
            assert(seq![v[pos + 1]] + s.drop_first() =~= s);
        } else {
            assert(v[pos] == c);
            assert(v[pos] != '"' && v[pos] != '\\');
            assert(seq![v[pos]] + s.drop_first() =~= s);
        }
    }
}

/// Reading a serialized string back yields the string.
pub proof fn lemma_parse_str(v: Seq<char>, pos: int, s: Seq<char>)
    requires
        0 <= pos,
        pos + ser_str(s).len() <= v.len(),
        v.subrange(pos, pos + ser_str(s).len() as int) == ser_str(s),
    ensures
        p_str(v, pos) == Some((s, pos + ser_str(s).len())),
{
    assert(v[pos] == ser_str(s)[0]);
    assert(v.subrange(pos + 1, pos + 1 + esc(s).len() as int) =~= esc(s)) by {
        assert(forall|m: int|
            0 <= m < esc(s).len() ==> v.subrange(pos, pos + ser_str(s).len() as int)[1 + m] == (
            #[trigger] esc(s)[m]));
    }
    assert(v[pos + 1 + esc(s).len()] == ser_str(s)[1 + esc(s).len() as int]);
    lemma_parse_str_body(v, pos + 1, s);
}

// ---------------------------------------------------------------------------
// Executable primitives.
// ---------------------------------------------------------------------------
/// Appends the decimal rendering of `n`.
pub fn emit_u64(out: &mut Vec<char>, n: u64)
    ensures
        final(out)@ == old(out)@ + spec_dec(n as nat),
{
    let mut digits = u64_to_dec_chars(n);
    out.append(&mut digits);
}

/// Appends the quoted, escaped form of `s`.
pub fn emit_str(out: &mut Vec<char>, s: &str)
    ensures
        final(out)@ == old(out)@ + ser_str(s@),
{
    let ghost start = out@;
    out.push('"');
    let v = str_to_chars(s);
    let n = v.len();
    let mut i: usize = 0;
    while i < n
        invariant
            i <= n,
            n == v@.len(),
            v@ == s@,
            out@ == start + seq!['"'] + esc(s@.subrange(0, i as int)),
        decreases n - i,
    {
        let c = v[i];
        if c == '"' || c == '\\' {
            out.push('\\');
            out.push(c);
        } else {
            out.push(c);
        }
        i = i + 1;
        proof {
            assert(s@.subrange(0, i as int).drop_last() =~= s@.subrange(0, i - 1));
            assert(out@ =~= start + seq!['"'] + esc(s@.subrange(0, i as int)));
        }
    }
    out.push('"');
    proof {
        assert(s@.subrange(0, n as int) =~= s@);
        assert(final(out)@ =~= old(out)@ + ser_str(s@));
    }
}

/// Appends a literal.
pub fn emit_lit(out: &mut Vec<char>, lit: &str)
    ensures
        final(out)@ == old(out)@ + lit@,
{
    let mut v = str_to_chars(lit);
    out.append(&mut v);
}

/// Parses a greedy decimal number, failing on values above the unsigned
/// 64-bit range.
pub fn parse_u64(v: &Vec<char>, pos: usize) -> (r: Option<(u64, usize)>)
    ensures
        match p_u64(v@, pos as int) {
            Option::None => r is None,
            Option::Some((n, e)) => if n <= u64::MAX {
                r == Some((n as u64, e as usize))
            } else {
                r is None
            },
        },
{
    let n = v.len();
    if pos >= n {
        return None;
    }
    let c0 = v[pos];
    if !('0' <= c0 && c0 <= '9') {
        proof {
            assert(!is_digit(v@[pos as int]));
        }
        return None;
    }
    let ghost gend = digits_end(v@, pos as int);
    proof {
        lemma_digits_end_in_range(v@, pos as int);
    }
    let mut acc: u64 = 0;
    let mut i: usize = pos;
    while i < n && '0' <= v[i] && v[i] <= '9'
        invariant
            pos <= i <= n,
            n == v@.len(),
            i <= gend,
            gend == digits_end(v@, pos as int),
            gend == digits_end(v@, i as int),
            digits_val(v@, pos as int, gend, 0) == digits_val(v@, i as int, gend, acc as nat),
            acc <= u64::MAX,
        decreases n - i,
    {
        proof {
            lemma_digits_end_in_range(v@, i as int);
        }
        let c = v[i];
        let d: u64 = digit_of_char(c);
        if acc > 0x1999_9999_9999_9999 || (acc == 0x1999_9999_9999_9999 && d > 5) {
            proof {
                assert(i < gend);
                assert(digits_val(v@, i as int, gend, acc as nat) == digits_val(
                    v@,
                    i + 1,
                    gend,
                    (acc as nat) * 10 + digit_val(v@[i as int]) as nat,
                ));
                lemma_digits_val_lower(v@, i + 1, gend, (acc as nat) * 10 + d as nat);
                assert((acc as nat) * 10 + (d as nat) > u64::MAX) by (nonlinear_arith)
                    requires
                        (acc as nat) > 0x1999_9999_9999_9999 || ((acc as nat)
                            == 0x1999_9999_9999_9999 && (d as nat) > 5),
                ;
            }
            return None;
        }
        acc = acc * 10 + d;
        i = i + 1;
    }
    proof {
        assert(i == gend) by {
            if i < n && is_digit(v@[i as int]) {
                assert(false);
            }
        }
    }
    Some((acc, i))
}

/// Accumulated digit values never shrink as more digits are read.
proof fn lemma_digits_val_lower(v: Seq<char>, pos: int, end: int, acc: nat)
    requires
        pos <= end,
    ensures
        digits_val(v, pos, end, acc) >= acc,
    decreases end - pos,
{
    if pos < end {
        lemma_digits_val_lower(v, pos + 1, end, acc * 10 + digit_val(v[pos]) as nat);
        assert(acc * 10 + digit_val(v[pos]) as nat >= acc) by (nonlinear_arith);
    }
}

/// The end of a digit run lies between its start and the end of the text.
proof fn lemma_digits_end_in_range(v: Seq<char>, pos: int)
    requires
        0 <= pos,
    ensures
        pos <= digits_end(v, pos) <= v.len() || digits_end(v, pos) == pos,
        pos <= v.len() ==> pos <= digits_end(v, pos) <= v.len(),
        forall|m: int| pos <= m < digits_end(v, pos) ==> is_digit(#[trigger] v[m]),
        digits_end(v, pos) == v.len() || digits_end(v, pos) < 0 || digits_end(v, pos) >= v.len()
            || !is_digit(v[digits_end(v, pos)]),
    decreases v.len() - pos,
{
    if 0 <= pos < v.len() && is_digit(v[pos]) {
        lemma_digits_end_in_range(v, pos + 1);
    }
}

/// The value of one digit character.
fn digit_of_char(c: char) -> (d: u64)
    requires
        is_digit(c),
    ensures
        d == digit_val(c),
        d < 10,
{
    if c == '0' {
        0
    } else if c == '1' {
        1
    } else if c == '2' {
        2
    } else if c == '3' {
        3
    } else if c == '4' {
        4
    } else if c == '5' {
        5
    } else if c == '6' {
        6
    } else if c == '7' {
        7
    } else if c == '8' {
        8
    } else {
        9
    }
}

/// Parses exactly `k` digits.
pub fn parse_fixed(v: &Vec<char>, pos: usize, k: usize) -> (r: Option<u64>)
    requires
        k <= 10,
    ensures
        match p_fixed(v@, pos as int, k as int) {
            Option::None => r is None,
            Option::Some(n) => r == Some(n as u64),
        },
{
    let n = v.len();
    if pos > n || k > n - pos {
        return None;
    }
    proof {
        lemma_pow10_table();
        assert(pow10(0) == 1);
    }
    let mut acc: u64 = 0;
    let mut i: usize = 0;
    while i < k
        invariant
            i <= k <= 10,
            n == v@.len(),
            pos + k <= n,
            forall|m: int| pos <= m < pos + i ==> is_digit(#[trigger] v@[m]),
            acc as nat == digits_val(v@, pos as int, pos + i, 0),
            (acc as nat) < pow10(i as nat),
            pow10(i as nat) <= 0x2540BE400,
        decreases k - i,
    {
        let c = v[pos + i];
        if !('0' <= c && c <= '9') {
            proof {
                assert(!is_digit(v@[pos + i]));
                assert(p_fixed(v@, pos as int, k as int) is None);
            }
            return None;
        }
        let d = digit_of_char(c);
        proof {
            lemma_digits_val_snoc(v@, pos as int, pos + i, 0);
            let p = pow10(i as nat);
            assert((acc as nat) * 10 + (d as nat) < p * 10) by (nonlinear_arith)
                requires
                    (acc as nat) < p,
                    d < 10,
            ;
            assert(pow10((i + 1) as nat) == 10 * p);
            assert(10 * p == p * 10) by (nonlinear_arith);
            lemma_pow10_mono(i as nat + 1, 10);
            lemma_pow10_table();
        }
        acc = acc * 10 + d;
        i = i + 1;
    }
    Some(acc)
}

/// The first eleven powers of ten, spelled out for the fixed-width parser.
pub proof fn lemma_pow10_table()
    ensures
        pow10(0) == 1,
        pow10(1) == 10,
        pow10(2) == 100,
        pow10(3) == 1000,
        pow10(4) == 10000,
        pow10(10) == 0x2540BE400,
{
    assert(pow10(0) == 1);
    assert(pow10(1) == 10);
    assert(pow10(2) == 100);
    assert(pow10(3) == 1000);
    assert(pow10(4) == 10000);
    assert(pow10(5) == 100000);
    assert(pow10(6) == 1000000);
    assert(pow10(7) == 10000000);
    assert(pow10(8) == 100000000);
    assert(pow10(9) == 1000000000);
    assert(pow10(10) == 10000000000);
}

/// Powers of ten are positive.
proof fn lemma_pow10_pos(k: nat)
    ensures
        pow10(k) >= 1,
    decreases k,
{
    if k > 0 {
        lemma_pow10_pos((k - 1) as nat);
        let p = pow10((k - 1) as nat);
        assert(10 * p >= 1) by (nonlinear_arith)
            requires
                p >= 1,
        ;
    }
}

/// Powers of ten grow with the exponent.
proof fn lemma_pow10_mono(a: nat, b: nat)
    requires
        a <= b,
    ensures
        pow10(a) <= pow10(b),
        pow10(b) >= 1,
    decreases b,
{
    lemma_pow10_pos(b);
    if a < b {
        lemma_pow10_mono(a, (b - 1) as nat);
        let p = pow10((b - 1) as nat);
        assert(pow10(b) == 10 * p);
        assert(10 * p >= p) by (nonlinear_arith)
            requires
                p >= 1,
        ;
    }
}

/// Expects a literal at `pos`, returning the position after it.
pub fn parse_lit(v: &Vec<char>, pos: usize, lit: &str) -> (r: Option<usize>)
    ensures
        match r {
            Option::None => p_lit(v@, pos as int, lit@) is None,
            Option::Some(rp) => p_lit(v@, pos as int, lit@) == Some(rp as int),
        },
{
    let lv = str_to_chars(lit);
    let m = lv.len();
    let n = v.len();
    if pos > n || m > n - pos {
        return None;
    }
    let mut i: usize = 0;
    while i < m
        invariant
            i <= m,
            m == lit@.len(),
            lv@ == lit@,
            n == v@.len(),
            pos + m <= n,
            forall|q: int| 0 <= q < i ==> v@[pos + q] == lit@[q],
        decreases m - i,
    {
        if v[pos + i] != lv[i] {
            proof {
                assert(v@.subrange(pos as int, pos + m) != lit@) by {
                    assert(v@.subrange(pos as int, pos + m)[i as int] != lit@[i as int]);
                }
            }
            return None;
        }
        i = i + 1;
    }
    proof {
        assert(v@.subrange(pos as int, pos + m) =~= lit@);
    }
    Some(pos + m)
}

/// A prefix of a concatenation written at `pos` can be read off piecewise.
pub proof fn lemma_split_at(v: Seq<char>, pos: int, a: Seq<char>, b: Seq<char>)
    requires
        0 <= pos,
        pos + a.len() + b.len() <= v.len(),
        v.subrange(pos, pos + a.len() + b.len()) == a + b,
    ensures
        v.subrange(pos, pos + a.len() as int) == a,
        v.subrange(pos + a.len() as int, pos + a.len() + b.len()) == b,
{
    assert(v.subrange(pos, pos + a.len() as int) =~= a) by {
        assert(forall|m: int|
            0 <= m < a.len() ==> v.subrange(pos, pos + a.len() + b.len())[m] == #[trigger] a[m]);
    }
    assert(v.subrange(pos + a.len() as int, pos + a.len() + b.len()) =~= b) by {
        assert(forall|m: int|
            0 <= m < b.len() ==> v.subrange(pos, pos + a.len() + b.len())[a.len() + m]
                == #[trigger] b[m]);
    }
}

/// Parses a quoted string at `pos`.
pub fn parse_str(v: &Vec<char>, pos: usize) -> (r: Option<(String, usize)>)
    ensures
        match p_str(v@, pos as int) {
            Option::None => r is None,
            Option::Some((s, e)) => match r {
                Option::None => false,
                Option::Some((rs, re)) => rs@ == s && re as int == e,
            },
        },
{
    let n = v.len();
    if pos >= n || v[pos] != '"' {
        return None;
    }
    let mut body: Vec<char> = Vec::new();
    let mut i: usize = pos + 1;
    loop
        invariant
            pos + 1 <= i <= n,
            n == v@.len(),
            match p_str_body(v@, pos + 1) {
                Option::None => p_str_body(v@, i as int) is None,
                Option::Some((s, e)) => match p_str_body(v@, i as int) {
                    Option::None => false,
                    Option::Some((s2, e2)) => s == body@ + s2 && e == e2,
                },
            },
        ensures
            match p_str_body(v@, pos + 1) {
                Option::None => false,
                Option::Some((s, e)) => i < n && v@[i as int] == '"' && body@ == s && i + 1 == e,
            },
        decreases n - i,
    {
        if i >= n {
            proof {
                assert(p_str_body(v@, i as int) is None);
            }
            return None;
        }
        let c = v[i];
        if c == '"' {
            proof {
                assert(p_str_body(v@, i as int) == Some((Seq::<char>::empty(), i + 1)));
                assert(body@ + Seq::<char>::empty() =~= body@);
            }
            break ;
        }
        if c == '\\' {
            if i + 1 >= n {
                proof {
                    assert(p_str_body(v@, i as int) is None);
                }
                return None;
            }
            let ghost body_before = body@;
            body.push(v[i + 1]);
            proof {
                match p_str_body(v@, i + 2) {
                    Option::Some((s2, e2)) => {
                        assert(body_before + (seq![v@[i + 1]] + s2) =~= body@ + s2);
                    },
                    Option::None => {},
                }
            }
            i = i + 2;
        } else {
            let ghost body_before = body@;
            body.push(c);
            proof {
                match p_str_body(v@, i + 1) {
                    Option::Some((s2, e2)) => {
                        assert(body_before + (seq![v@[i as int]] + s2) =~= body@ + s2);
                    },
                    Option::None => {},
                }
            }
            i = i + 1;
        }
    }
    Some((chars_to_string(&body), i + 1))
}

// ---------------------------------------------------------------------------
// Enumeration names.
// ---------------------------------------------------------------------------
pub open spec fn op_name(k: OpKind) -> Seq<char> {
    match k {
        OpKind::Move => "Move"@,
        OpKind::CopyDelete => "CopyDelete"@,
        OpKind::Rename => "Rename"@,
        OpKind::Skip => "Skip"@,
        OpKind::NoOp => "NoOp"@,
    }
}

pub open spec fn op_of_name(s: Seq<char>) -> Option<OpKind> {
    if s == "Move"@ {
        Some(OpKind::Move)
    } else if s == "CopyDelete"@ {
        Some(OpKind::CopyDelete)
    } else if s == "Rename"@ {
        Some(OpKind::Rename)
    } else if s == "Skip"@ {
        Some(OpKind::Skip)
    } else if s == "NoOp"@ {
        Some(OpKind::NoOp)
    } else {
        None
    }
}

/// Reading an operation name back yields the operation.
pub proof fn lemma_op_name_inverts(k: OpKind)
    ensures
        op_of_name(op_name(k)) == Some(k),
{
    reveal_strlit("Move");
    reveal_strlit("CopyDelete");
    reveal_strlit("Rename");
    reveal_strlit("Skip");
    reveal_strlit("NoOp");
    assert("Move"@.len() == 4 && "CopyDelete"@.len() == 10 && "Rename"@.len() == 6
        && "Skip"@.len() == 4 && "NoOp"@.len() == 4);
    match k {
        OpKind::Move => {
            assert(op_name(k) == "Move"@);
        },
        OpKind::CopyDelete => {
            assert("CopyDelete"@ != "Move"@);
        },
        OpKind::Rename => {
            assert("Rename"@ != "Move"@ && "Rename"@ != "CopyDelete"@);
        },
        OpKind::Skip => {
            assert("Skip"@ != "Move"@) by {
                assert("Skip"@[0] == 'S' && "Move"@[0] == 'M');
            }
            assert("Skip"@ != "CopyDelete"@ && "Skip"@ != "Rename"@);
        },
        OpKind::NoOp => {
            assert("NoOp"@ != "Move"@) by {
                assert("NoOp"@[0] == 'N' && "Move"@[0] == 'M');
            }
            assert("NoOp"@ != "Skip"@) by {
                assert("NoOp"@[0] == 'N' && "Skip"@[0] == 'S');
            }
            assert("NoOp"@ != "CopyDelete"@ && "NoOp"@ != "Rename"@);
        },
    }
}

fn emit_op(out: &mut Vec<char>, k: OpKind)
    ensures
        final(out)@ == old(out)@ + ser_str(op_name(k)),
{
    match k {
        OpKind::Move => emit_str(out, "Move"),
        OpKind::CopyDelete => emit_str(out, "CopyDelete"),
        OpKind::Rename => emit_str(out, "Rename"),
        OpKind::Skip => emit_str(out, "Skip"),
        OpKind::NoOp => emit_str(out, "NoOp"),
    }
}

fn op_from_name(s: &str) -> (r: Option<OpKind>)
    ensures
        r == op_of_name(s@),
{
    if eq_str(s, "Move") {
        Some(OpKind::Move)
    } else if eq_str(s, "CopyDelete") {
        Some(OpKind::CopyDelete)
    } else if eq_str(s, "Rename") {
        Some(OpKind::Rename)
    } else if eq_str(s, "Skip") {
        Some(OpKind::Skip)
    } else if eq_str(s, "NoOp") {
        Some(OpKind::NoOp)
    } else {
        None
    }
}

pub open spec fn result_name(k: ResultKind) -> Seq<char> {
    match k {
        ResultKind::Done => "Done"@,
        ResultKind::Skip => "Skip"@,
        ResultKind::Failed => "Failed"@,
    }
}

pub open spec fn result_of_name(s: Seq<char>) -> Option<ResultKind> {
    if s == "Done"@ {
        Some(ResultKind::Done)
    } else if s == "Skip"@ {
        Some(ResultKind::Skip)
    } else if s == "Failed"@ {
        Some(ResultKind::Failed)
    } else {
        None
    }
}

/// Reading a result name back yields the result.
pub proof fn lemma_result_name_inverts(k: ResultKind)
    ensures
        result_of_name(result_name(k)) == Some(k),
{
    reveal_strlit("Done");
    reveal_strlit("Skip");
    reveal_strlit("Failed");
    assert("Done"@.len() == 4 && "Skip"@.len() == 4 && "Failed"@.len() == 6);
    match k {
        ResultKind::Done => {
            assert(result_name(k) == "Done"@);
        },
        ResultKind::Skip => {
            assert("Skip"@ != "Done"@) by {
                assert("Skip"@[0] == 'S' && "Done"@[0] == 'D');
            }
        },
        ResultKind::Failed => {
            assert("Failed"@ != "Done"@ && "Failed"@ != "Skip"@);
        },
    }
}

fn emit_result(out: &mut Vec<char>, k: ResultKind)
    ensures
        final(out)@ == old(out)@ + ser_str(result_name(k)),
{
    match k {
        ResultKind::Done => emit_str(out, "Done"),
        ResultKind::Skip => emit_str(out, "Skip"),
        ResultKind::Failed => emit_str(out, "Failed"),
    }
}

fn result_from_name(s: &str) -> (r: Option<ResultKind>)
    ensures
        r == result_of_name(s@),
{
    if eq_str(s, "Done") {
        Some(ResultKind::Done)
    } else if eq_str(s, "Skip") {
        Some(ResultKind::Skip)
    } else if eq_str(s, "Failed") {
        Some(ResultKind::Failed)
    } else {
        None
    }
}

// ---------------------------------------------------------------------------
// Timestamps.
// ---------------------------------------------------------------------------
/// The fixed-width calendar text of a timestamp.
pub open spec fn ts_text(t: Timestamp) -> Seq<char> {
    spec_dec_pad(t.year as nat, 4) + seq!['-'] + spec_dec_pad(t.month as nat, 2) + seq!['-']
        + spec_dec_pad(t.day as nat, 2) + seq!['T'] + spec_dec_pad(t.hour as nat, 2) + seq![':']
        + spec_dec_pad(t.minute as nat, 2) + seq![':'] + spec_dec_pad(t.second as nat, 2)
        + seq!['Z']
}

/// A valid timestamp renders to exactly twenty characters.
pub proof fn lemma_ts_text_len(t: Timestamp)
    requires
        t.valid(),
    ensures
        ts_text(t).len() == 20,
        spec_dec_pad(t.year as nat, 4).len() == 4,
        spec_dec_pad(t.month as nat, 2).len() == 2,
        spec_dec_pad(t.day as nat, 2).len() == 2,
        spec_dec_pad(t.hour as nat, 2).len() == 2,
        spec_dec_pad(t.minute as nat, 2).len() == 2,
        spec_dec_pad(t.second as nat, 2).len() == 2,
{
    lemma_pow10_table();
    lemma_dec_small_len(t.year as nat, 4);
    lemma_dec_small_len(t.month as nat, 2);
    lemma_dec_small_len(t.day as nat, 2);
    lemma_dec_small_len(t.hour as nat, 2);
    lemma_dec_small_len(t.minute as nat, 2);
    lemma_dec_small_len(t.second as nat, 2);
}

/// A number below ten to the `k` renders, padded, to exactly `k` digits.
pub proof fn lemma_dec_small_len(n: nat, k: int)
    requires
        1 <= k <= 4,
        n < pow10(k as nat),
    ensures
        spec_dec(n).len() <= k,
        spec_dec_pad(n, k).len() == k,
    decreases k,
{
    lemma_dec_len(n);
    if n < 10 {
    } else {
        assert(pow10(k as nat) == 10 * pow10((k - 1) as nat));
        let p = pow10((k - 1) as nat);
        lemma_pow10_pos((k - 1) as nat);
        assert(1 <= k - 1) by {
            if k == 1 {
                assert(pow10(1nat) == 10 * pow10(0nat));
                assert(pow10(0nat) == 1);
            }
        }
        assert(n / 10 < p) by (nonlinear_arith)
            requires
                n < 10 * p,
                p >= 1,
                n >= 10,
        ;
        lemma_dec_small_len(n / 10, k - 1);
    }
}

/// Parses a fixed-width timestamp.
pub open spec fn p_ts(v: Seq<char>, pos: int) -> Option<(Timestamp, int)> {
    match p_fixed(v, pos, 4) {
        Option::None => None,
        Option::Some(y) => match p_lit(v, pos + 4, seq!['-']) {
            Option::None => None,
            Option::Some(_) => match p_fixed(v, pos + 5, 2) {
                Option::None => None,
                Option::Some(mo) => match p_lit(v, pos + 7, seq!['-']) {
                    Option::None => None,
                    Option::Some(_) => match p_fixed(v, pos + 8, 2) {
                        Option::None => None,
                        Option::Some(d) => match p_lit(v, pos + 10, seq!['T']) {
                            Option::None => None,
                            Option::Some(_) => match p_fixed(v, pos + 11, 2) {
                                Option::None => None,
                                Option::Some(h) => match p_lit(v, pos + 13, seq![':']) {
                                    Option::None => None,
                                    Option::Some(_) => match p_fixed(v, pos + 14, 2) {
                                        Option::None => None,
                                        Option::Some(mi) => match p_lit(v, pos + 16, seq![':']) {
                                            Option::None => None,
                                            Option::Some(_) => match p_fixed(v, pos + 17, 2) {
                                                Option::None => None,
                                                Option::Some(sec) => match p_lit(
                                                    v,
                                                    pos + 19,
                                                    seq!['Z'],
                                                ) {
                                                    Option::None => None,
                                                    Option::Some(_) => Some(
                                                        (
                                                            Timestamp {
                                                                year: y as u64,
                                                                month: mo as u64,
                                                                day: d as u64,
                                                                hour: h as u64,
                                                                minute: mi as u64,
                                                                second: sec as u64,
                                                            },
                                                            pos + 20,
                                                        ),
                                                    ),
                                                },
                                            },
                                        },
                                    },
                                },
                            },
                        },
                    },
                },
            },
        },
    }
}

/// Reading a rendered timestamp back yields the timestamp.
#[verifier::rlimit(100)]
pub proof fn lemma_parse_ts(v: Seq<char>, pos: int, t: Timestamp)
    requires
        t.valid(),
        0 <= pos,
        pos + 20 <= v.len(),
        v.subrange(pos, pos + 20) == ts_text(t),
    ensures
        p_ts(v, pos) == Some((t, pos + 20)),
{
    lemma_ts_text_len(t);
    lemma_pow10_table();
    let y = spec_dec_pad(t.year as nat, 4);
    let mo = spec_dec_pad(t.month as nat, 2);
    let d = spec_dec_pad(t.day as nat, 2);
    let h = spec_dec_pad(t.hour as nat, 2);
    let mi = spec_dec_pad(t.minute as nat, 2);
    let sec = spec_dec_pad(t.second as nat, 2);
    let r1 = seq!['-'] + mo + seq!['-'] + d + seq!['T'] + h + seq![':'] + mi + seq![':'] + sec
        + seq!['Z'];
    assert(ts_text(t) =~= y + r1);
    lemma_split_at(v, pos, y, r1);
    lemma_parse_fixed(v, pos, t.year as nat, 4);
    let r2 = mo + seq!['-'] + d + seq!['T'] + h + seq![':'] + mi + seq![':'] + sec + seq!['Z'];
    assert(r1 =~= seq!['-'] + r2);
    lemma_split_at(v, pos + 4, seq!['-'], r2);
    let r3 = seq!['-'] + d + seq!['T'] + h + seq![':'] + mi + seq![':'] + sec + seq!['Z'];
    assert(r2 =~= mo + r3);
    lemma_split_at(v, pos + 5, mo, r3);
    lemma_parse_fixed(v, pos + 5, t.month as nat, 2);
    let r4 = d + seq!['T'] + h + seq![':'] + mi + seq![':'] + sec + seq!['Z'];
    assert(r3 =~= seq!['-'] + r4);
    lemma_split_at(v, pos + 7, seq!['-'], r4);
    let r5 = seq!['T'] + h + seq![':'] + mi + seq![':'] + sec + seq!['Z'];
    assert(r4 =~= d + r5);
    lemma_split_at(v, pos + 8, d, r5);
    lemma_parse_fixed(v, pos + 8, t.day as nat, 2);
    let r6 = h + seq![':'] + mi + seq![':'] + sec + seq!['Z'];
    assert(r5 =~= seq!['T'] + r6);
    lemma_split_at(v, pos + 10, seq!['T'], r6);
    let r7 = seq![':'] + mi + seq![':'] + sec + seq!['Z'];
    assert(r6 =~= h + r7);
    lemma_split_at(v, pos + 11, h, r7);
    lemma_parse_fixed(v, pos + 11, t.hour as nat, 2);
    let r8 = mi + seq![':'] + sec + seq!['Z'];
    assert(r7 =~= seq![':'] + r8);
    lemma_split_at(v, pos + 13, seq![':'], r8);
    let r9 = seq![':'] + sec + seq!['Z'];
    assert(r8 =~= mi + r9);
    lemma_split_at(v, pos + 14, mi, r9);
    lemma_parse_fixed(v, pos + 14, t.minute as nat, 2);
    let r10 = sec + seq!['Z'];
    assert(r9 =~= seq![':'] + r10);
    lemma_split_at(v, pos + 16, seq![':'], r10);
    assert(r10 =~= sec + seq!['Z']);
    lemma_split_at(v, pos + 17, sec, seq!['Z']);
    lemma_parse_fixed(v, pos + 17, t.second as nat, 2);
}

/// Appends the fixed-width text of a timestamp.
fn emit_ts(out: &mut Vec<char>, t: &Timestamp)
    requires
        t.valid(),
    ensures
        final(out)@ == old(out)@ + ts_text(*t),
{
    let mut y = u64_to_dec_chars_pad(t.year, 4);
    out.append(&mut y);
    out.push('-');
    let mut mo = u64_to_dec_chars_pad(t.month, 2);
    out.append(&mut mo);
    out.push('-');
    let mut d = u64_to_dec_chars_pad(t.day, 2);
    out.append(&mut d);
    out.push('T');
    let mut h = u64_to_dec_chars_pad(t.hour, 2);
    out.append(&mut h);
    out.push(':');
    let mut mi = u64_to_dec_chars_pad(t.minute, 2);
    out.append(&mut mi);
    out.push(':');
    let mut sec = u64_to_dec_chars_pad(t.second, 2);
    out.append(&mut sec);
    out.push('Z');
    proof {
        assert(final(out)@ =~= old(out)@ + ts_text(*t));
    }
}

/// Parses a fixed-width timestamp.
fn parse_ts(v: &Vec<char>, pos: usize) -> (r: Option<(Timestamp, usize)>)
    ensures
        match p_ts(v@, pos as int) {
            Option::None => r is None,
            Option::Some((t, e)) => match r {
                Option::None => false,
                Option::Some((rt, re)) => rt == t && re as int == e,
            },
        },
{
    if pos > v.len() {
        return None;
    }
    let year = match parse_fixed(v, pos, 4) {
        Some(x) => x,
        None => {
            return None;
        },
    };
    let p1 = match parse_lit(v, pos + 4, "-") {
        Some(x) => x,
        None => {
            proof {
                reveal_strlit("-");
                assert("-"@ =~= seq!['-']);
            }
            return None;
        },
    };
    proof {
        reveal_strlit("-");
        assert("-"@ =~= seq!['-']);
    }
    let month = match parse_fixed(v, pos + 5, 2) {
        Some(x) => x,
        None => {
            return None;
        },
    };
    let p2 = match parse_lit(v, pos + 7, "-") {
        Some(x) => x,
        None => {
            return None;
        },
    };
    let day = match parse_fixed(v, pos + 8, 2) {
        Some(x) => x,
        None => {
            return None;
        },
    };
    proof {
        reveal_strlit("T");
        assert("T"@ =~= seq!['T']);
        reveal_strlit(":");
        assert(":"@ =~= seq![':']);
        reveal_strlit("Z");
        assert("Z"@ =~= seq!['Z']);
    }
    let p3 = match parse_lit(v, pos + 10, "T") {
        Some(x) => x,
        None => {
            return None;
        },
    };
    let hour = match parse_fixed(v, pos + 11, 2) {
        Some(x) => x,
        None => {
            return None;
        },
    };
    let p4 = match parse_lit(v, pos + 13, ":") {
        Some(x) => x,
        None => {
            return None;
        },
    };
    let minute = match parse_fixed(v, pos + 14, 2) {
        Some(x) => x,
        None => {
            return None;
        },
    };
    let p5 = match parse_lit(v, pos + 16, ":") {
        Some(x) => x,
        None => {
            return None;
        },
    };
    let second = match parse_fixed(v, pos + 17, 2) {
        Some(x) => x,
        None => {
            return None;
        },
    };
    let p6 = match parse_lit(v, pos + 19, "Z") {
        Some(x) => x,
        None => {
            return None;
        },
    };
    Some((Timestamp { year, month, day, hour, minute, second }, pos + 20))
}

// ---------------------------------------------------------------------------
// Journal entries.
// ---------------------------------------------------------------------------
/// An optional message: `null` or a string.
pub open spec fn ser_opt_str(m: Option<String>) -> Seq<char> {
    match m {
        Option::None => "null"@,
        Option::Some(s) => ser_str(s@),
    }
}

/// The one-line record of an entry, nested so that each piece peels off the
/// front definitionally.
pub open spec fn ser_entry(e: JournalEntry) -> Seq<char> {
    "{\"when_utc\":\""@ + (ts_text(e.when_utc) + ("\",\"source\":"@ + (ser_str(e.source@) + (
    ",\"dest\":"@ + (ser_str(e.dest@) + (",\"op\":"@ + (ser_str(op_name(e.op)) + (",\"result\":"@
        + (ser_str(result_name(e.result)) + (",\"message\":"@ + (ser_opt_str(e.message)
        + "}"@)))))))))))
}

/// The value an entry parses to: its timestamp, path texts, operation,
/// result and message text.
pub open spec fn entry_model(e: JournalEntry) -> (
    Timestamp,
    Seq<char>,
    Seq<char>,
    OpKind,
    ResultKind,
    Option<Seq<char>>,
) {
    (
        e.when_utc,
        e.source@,
        e.dest@,
        e.op,
        e.result,
        match e.message {
            Option::None => None,
            Option::Some(s) => Some(s@),
        },
    )
}

/// Parses one entry record.
pub open spec fn p_entry(v: Seq<char>, pos: int) -> Option<
    ((Timestamp, Seq<char>, Seq<char>, OpKind, ResultKind, Option<Seq<char>>), int),
> {
    match p_lit(v, pos, "{\"when_utc\":\""@) {
        Option::None => None,
        Option::Some(p1) => match p_ts(v, p1) {
            Option::None => None,
            Option::Some((ts, p2)) => match p_lit(v, p2, "\",\"source\":"@) {
                Option::None => None,
                Option::Some(p3) => match p_str(v, p3) {
                    Option::None => None,
                    Option::Some((src, p4)) => match p_lit(v, p4, ",\"dest\":"@) {
                        Option::None => None,
                        Option::Some(p5) => match p_str(v, p5) {
                            Option::None => None,
                            Option::Some((dst, p6)) => match p_lit(v, p6, ",\"op\":"@) {
                                Option::None => None,
                                Option::Some(p7) => match p_str(v, p7) {
                                    Option::None => None,
                                    Option::Some((opn, p8)) => match op_of_name(opn) {
                                        Option::None => None,
                                        Option::Some(op) => match p_lit(v, p8, ",\"result\":"@) {
                                            Option::None => None,
                                            Option::Some(p9) => match p_str(v, p9) {
                                                Option::None => None,
                                                Option::Some((resn, p10)) => match result_of_name(
                                                    resn,
                                                ) {
                                                    Option::None => None,
                                                    Option::Some(res) => match p_lit(
                                                        v,
                                                        p10,
                                                        ",\"message\":"@,
                                                    ) {
                                                        Option::None => None,
                                                        Option::Some(p11) => match p_opt_str(
                                                            v,
                                                            p11,
                                                        ) {
                                                            Option::None => None,
                                                            Option::Some((msg, p12)) => match p_lit(
                                                                v,
                                                                p12,
                                                                "}"@,
                                                            ) {
                                                                Option::None => None,
                                                                Option::Some(p13) => Some(
                                                                    (
                                                                        (
                                                                            ts,
                                                                            src,
                                                                            dst,
                                                                            op,
                                                                            res,
                                                                            msg,
                                                                        ),
                                                                        p13,
                                                                    ),
                                                                ),
                                                            },
                                                        },
                                                    },
                                                },
                                            },
                                        },
                                    },
                                },
                            },
                        },
                    },
                },
            },
        },
    }
}

/// Parses `null` or a string.
pub open spec fn p_opt_str(v: Seq<char>, pos: int) -> Option<(Option<Seq<char>>, int)> {
    match p_lit(v, pos, "null"@) {
        Option::Some(e) => Some((None, e)),
        Option::None => match p_str(v, pos) {
            Option::None => None,
            Option::Some((s, e)) => Some((Some(s), e)),
        },
    }
}

/// Reading a written entry back yields the entry's model.
#[verifier::rlimit(100)]
#[verifier::spinoff_prover]
pub proof fn lemma_parse_entry(v: Seq<char>, pos: int, e: JournalEntry)
    requires
        e.when_utc.valid(),
        0 <= pos,
        pos + ser_entry(e).len() <= v.len(),
        v.subrange(pos, pos + ser_entry(e).len()) == ser_entry(e),
    ensures
        p_entry(v, pos) == Some((entry_model(e), pos + ser_entry(e).len())),
{
    lemma_ts_text_len(e.when_utc);
    let k1 = "{\"when_utc\":\""@;
    let k2 = "\",\"source\":"@;
    let k3 = ",\"dest\":"@;
    let k4 = ",\"op\":"@;
    let k5 = ",\"result\":"@;
    let k6 = ",\"message\":"@;
    let k7 = "}"@;
    let ts = ts_text(e.when_utc);
    let src = ser_str(e.source@);
    let dst = ser_str(e.dest@);
    let opn = ser_str(op_name(e.op));
    let resn = ser_str(result_name(e.result));
    let msg = ser_opt_str(e.message);
    let r1 = ts + (k2 + (src + (k3 + (dst + (k4 + (opn + (k5 + (resn + (k6 + (msg + k7))))))))));
    lemma_split_at(v, pos, k1, r1);
    let p1 = pos + k1.len() as int;
    let r2 = k2 + (src + (k3 + (dst + (k4 + (opn + (k5 + (resn + (k6 + (msg + k7)))))))));
    lemma_split_at(v, p1, ts, r2);
    lemma_parse_ts(v, p1, e.when_utc);
    let p2 = p1 + 20;
    let r3 = src + (k3 + (dst + (k4 + (opn + (k5 + (resn + (k6 + (msg + k7))))))));
    lemma_split_at(v, p2, k2, r3);
    let p3 = p2 + k2.len() as int;
    let r4 = k3 + (dst + (k4 + (opn + (k5 + (resn + (k6 + (msg + k7)))))));
    lemma_split_at(v, p3, src, r4);
    lemma_parse_str(v, p3, e.source@);
    let p4 = p3 + src.len() as int;
    let r5 = dst + (k4 + (opn + (k5 + (resn + (k6 + (msg + k7))))));
    lemma_split_at(v, p4, k3, r5);
    let p5 = p4 + k3.len() as int;
    let r6 = k4 + (opn + (k5 + (resn + (k6 + (msg + k7)))));
    lemma_split_at(v, p5, dst, r6);
    lemma_parse_str(v, p5, e.dest@);
    let p6 = p5 + dst.len() as int;
    let r7 = opn + (k5 + (resn + (k6 + (msg + k7))));
    lemma_split_at(v, p6, k4, r7);
    let p7 = p6 + k4.len() as int;
    let r8 = k5 + (resn + (k6 + (msg + k7)));
    lemma_split_at(v, p7, opn, r8);
    lemma_parse_str(v, p7, op_name(e.op));
    lemma_op_name_inverts(e.op);
    let p8 = p7 + opn.len() as int;
    let r9 = resn + (k6 + (msg + k7));
    lemma_split_at(v, p8, k5, r9);
    let p9 = p8 + k5.len() as int;
    let r10 = k6 + (msg + k7);
    lemma_split_at(v, p9, resn, r10);
    lemma_parse_str(v, p9, result_name(e.result));
    lemma_result_name_inverts(e.result);
    let p10 = p9 + resn.len() as int;
    let r11 = msg + k7;
    lemma_split_at(v, p10, k6, r11);
    let p11 = p10 + k6.len() as int;
    lemma_split_at(v, p11, msg, k7);
    let p12 = p11 + msg.len() as int;
    reveal_strlit("null");
    match e.message {
        Option::None => {
            assert(msg == "null"@);
            lemma_parse_lit(v, p11, "null"@);
        },
        Option::Some(s) => {
            lemma_parse_str(v, p11, s@);
            assert(p_lit(v, p11, "null"@) is None) by {
                if p_lit(v, p11, "null"@) is Some {
                    assert(v.subrange(p11, p11 + 4)[0] == "null"@[0]);
                    assert(v[p11] == 'n');
                    assert(v[p11] == msg[0]);
                    assert(msg[0] == '"');
                }
            }
        },
    }
    lemma_parse_lit(v, p12, k7);
}

// ---------------------------------------------------------------------------
// The journal: one entry per line, in execution order.
// ---------------------------------------------------------------------------
/// The text of a whole journal.
pub open spec fn ser_journal(entries: Seq<JournalEntry>) -> Seq<char>
    decreases entries.len(),
{
    if entries.len() == 0 {
        Seq::empty()
    } else {
        ser_entry(entries.first()) + seq!['\n'] + ser_journal(entries.drop_first())
    }
}

/// The models of a journal's entries.
pub open spec fn journal_models(entries: Seq<JournalEntry>) -> Seq<
    (Timestamp, Seq<char>, Seq<char>, OpKind, ResultKind, Option<Seq<char>>),
> {
    entries.map_values(|e: JournalEntry| entry_model(e))
}

/// Parses a journal: entry lines with blank lines permitted and ignored.
pub open spec fn p_journal(v: Seq<char>, pos: int) -> Option<
    Seq<(Timestamp, Seq<char>, Seq<char>, OpKind, ResultKind, Option<Seq<char>>)>,
>
    decreases v.len() - pos,
{
    if pos < 0 {
        None
    } else if pos >= v.len() {
        Some(Seq::empty())
    } else if v[pos] == '\n' {
        p_journal(v, pos + 1)
    } else {
        match p_entry(v, pos) {
            Option::None => None,
            Option::Some((m, end)) => if pos < end <= v.len() {
                match p_journal(v, end) {
                    Option::None => None,
                    Option::Some(rest) => Some(seq![m] + rest),
                }
            } else {
                None
            },
        }
    }
}

/// Serialization appends entry by entry.
pub proof fn lemma_ser_journal_push(entries: Seq<JournalEntry>, e: JournalEntry)
    ensures
        ser_journal(entries.push(e)) == ser_journal(entries) + ser_entry(e) + seq!['\n'],
    decreases entries.len(),
{
    if entries.len() == 0 {
        assert(entries.push(e).drop_first() =~= Seq::<JournalEntry>::empty());
        assert(entries.push(e).first() == e);
        assert(entries.push(e).len() == 1);
        assert(ser_journal(Seq::<JournalEntry>::empty()) =~= Seq::<char>::empty());
        assert(ser_journal(entries.push(e)) =~= ser_entry(e) + seq!['\n']);
        assert(ser_journal(entries) + ser_entry(e) + seq!['\n'] =~= ser_entry(e) + seq!['\n']);
    } else {
        lemma_ser_journal_push(entries.drop_first(), e);
        assert(entries.push(e).first() == entries.first());
        assert(entries.push(e).drop_first() =~= entries.drop_first().push(e));
        assert(ser_journal(entries) + ser_entry(e) + seq!['\n'] =~= ser_entry(entries.first())
            + seq!['\n'] + (ser_journal(entries.drop_first()) + ser_entry(e) + seq!['\n']));
    }
}

/// Law: reading a written journal back yields exactly the entries that were
/// written. The parse consumes the whole text.
#[verifier::rlimit(100)]
pub proof fn lemma_journal_round_trip(v: Seq<char>, pos: int, entries: Seq<JournalEntry>)
    requires
        forall|i: int| 0 <= i < entries.len() ==> (#[trigger] entries[i]).when_utc.valid(),
        0 <= pos,
        pos + ser_journal(entries).len() == v.len(),
        v.subrange(pos, pos + ser_journal(entries).len()) == ser_journal(entries),
    ensures
        p_journal(v, pos) == Some(journal_models(entries)),
    decreases entries.len(),
{
    if entries.len() == 0 {
        assert(journal_models(entries) =~= Seq::<
            (Timestamp, Seq<char>, Seq<char>, OpKind, ResultKind, Option<Seq<char>>),
        >::empty());
    } else {
        let e = entries.first();
        let line = ser_entry(e) + seq!['\n'];
        let rest = ser_journal(entries.drop_first());
        assert(ser_journal(entries) =~= line + rest);
        lemma_split_at(v, pos, line, rest);
        assert(v.subrange(pos, pos + ser_entry(e).len() as int) =~= ser_entry(e)) by {
            assert(forall|m: int|
                0 <= m < ser_entry(e).len() ==> v.subrange(pos, pos + line.len() as int)[m] == (
                #[trigger] ser_entry(e)[m]));
        }
        lemma_parse_entry(v, pos, e);
        let pe = pos + ser_entry(e).len() as int;
        assert(v[pe] == line[line.len() - 1]);
        assert(v[pe] == '\n');
        assert(v[pos] == line[0]);
        assert(ser_entry(e)[0] == '{') by {
            reveal_strlit("{\"when_utc\":\"");
            assert(ser_entry(e)[0] == "{\"when_utc\":\""@[0]);
        }
        assert(v[pos] != '\n') by {
            assert(v[pos] == '{');
        }
        lemma_journal_round_trip(v, pe + 1, entries.drop_first());
        assert(p_journal(v, pe) == p_journal(v, pe + 1));
        assert(journal_models(entries) =~= seq![entry_model(e)] + journal_models(
            entries.drop_first(),
        ));
    }
}

/// Writes one entry onto `out`.
#[verifier::rlimit(100)]
fn emit_entry(out: &mut Vec<char>, e: &JournalEntry)
    requires
        e.when_utc.valid(),
    ensures
        final(out)@ == old(out)@ + ser_entry(*e),
{
    emit_lit(out, "{\"when_utc\":\"");
    emit_ts(out, &e.when_utc);
    emit_lit(out, "\",\"source\":");
    emit_str(out, e.source.as_str());
    emit_lit(out, ",\"dest\":");
    emit_str(out, e.dest.as_str());
    emit_lit(out, ",\"op\":");
    emit_op(out, e.op);
    emit_lit(out, ",\"result\":");
    emit_result(out, e.result);
    emit_lit(out, ",\"message\":");
    match &e.message {
        Some(m) => emit_str(out, m.as_str()),
        None => emit_lit(out, "null"),
    }
    emit_lit(out, "}");
    proof {
        let k1 = "{\"when_utc\":\""@;
        let k2 = "\",\"source\":"@;
        let k3 = ",\"dest\":"@;
        let k4 = ",\"op\":"@;
        let k5 = ",\"result\":"@;
        let k6 = ",\"message\":"@;
        let k7 = "}"@;
        let ts = ts_text(e.when_utc);
        let src = ser_str(e.source@);
        let dst = ser_str(e.dest@);
        let opn = ser_str(op_name(e.op));
        let resn = ser_str(result_name(e.result));
        let msg = ser_opt_str(e.message);
        let base = old(out)@;
        assert(ser_opt_str(e.message) == (match e.message {
            Option::None => "null"@,
            Option::Some(m) => ser_str(m@),
        }));
        assert(final(out)@ == base + k1 + ts + k2 + src + k3 + dst + k4 + opn + k5 + resn + k6
            + msg + k7);
        let t12 = msg + k7;
        let t11 = k6 + t12;
        let t10 = resn + t11;
        let t9 = k5 + t10;
        let t8 = opn + t9;
        let t7 = k4 + t8;
        let t6 = dst + t7;
        let t5 = k3 + t6;
        let t4 = src + t5;
        let t3 = k2 + t4;
        let t2 = ts + t3;
        assert(base + k1 + ts + k2 + src + k3 + dst + k4 + opn + k5 + resn + k6 + msg + k7 =~= (
        base + k1 + ts + k2 + src + k3 + dst + k4 + opn + k5 + resn + k6) + t12);
        assert((base + k1 + ts + k2 + src + k3 + dst + k4 + opn + k5 + resn + k6) + t12 =~= (base
            + k1 + ts + k2 + src + k3 + dst + k4 + opn + k5 + resn) + t11);
        assert((base + k1 + ts + k2 + src + k3 + dst + k4 + opn + k5 + resn) + t11 =~= (base + k1
            + ts + k2 + src + k3 + dst + k4 + opn + k5) + t10);
        assert((base + k1 + ts + k2 + src + k3 + dst + k4 + opn + k5) + t10 =~= (base + k1 + ts
            + k2 + src + k3 + dst + k4 + opn) + t9);
        assert((base + k1 + ts + k2 + src + k3 + dst + k4 + opn) + t9 =~= (base + k1 + ts + k2
            + src + k3 + dst + k4) + t8);
        assert((base + k1 + ts + k2 + src + k3 + dst + k4) + t8 =~= (base + k1 + ts + k2 + src
            + k3 + dst) + t7);
        assert((base + k1 + ts + k2 + src + k3 + dst) + t7 =~= (base + k1 + ts + k2 + src + k3)
            + t6);
        assert((base + k1 + ts + k2 + src + k3) + t6 =~= (base + k1 + ts + k2 + src) + t5);
        assert((base + k1 + ts + k2 + src) + t5 =~= (base + k1 + ts + k2) + t4);
        assert((base + k1 + ts + k2) + t4 =~= (base + k1 + ts) + t3);
        assert((base + k1 + ts) + t3 =~= (base + k1) + t2);
        assert((base + k1) + t2 =~= base + (k1 + t2));
        assert(ser_entry(*e) == k1 + t2);
    }
}

/// Writes a journal: one entry per line, in order.
pub fn write_journal(entries: &Vec<JournalEntry>) -> (r: String)
    requires
        forall|i: int| 0 <= i < entries@.len() ==> (#[trigger] entries@[i]).when_utc.valid(),
    ensures
        r@ == ser_journal(entries@),
{
    let n = entries.len();
    let mut out: Vec<char> = Vec::new();
    let mut i: usize = 0;
    while i < n
        invariant
            i <= n,
            n == entries@.len(),
            forall|m: int| 0 <= m < n ==> (#[trigger] entries@[m]).when_utc.valid(),
            out@ == ser_journal(entries@.subrange(0, i as int)),
        decreases n - i,
    {
        emit_entry(&mut out, &entries[i]);
        out.push('\n');
        i = i + 1;
        proof {
            assert(entries@.subrange(0, i as int) =~= entries@.subrange(0, i - 1).push(
                entries@[i - 1],
            ));
            lemma_ser_journal_push(entries@.subrange(0, i - 1), entries@[i - 1]);
            assert(out@ =~= ser_journal(entries@.subrange(0, i as int)));
        }
    }
    proof {
        assert(entries@.subrange(0, n as int) =~= entries@);
    }
    chars_to_string(&out)
}

/// Parses one entry record.
#[verifier::rlimit(100)]
#[verifier::spinoff_prover]
fn parse_entry_exec(v: &Vec<char>, pos: usize) -> (r: Option<(JournalEntry, usize)>)
    ensures
        match p_entry(v@, pos as int) {
            Option::None => r is None,
            Option::Some((m, e)) => match r {
                Option::None => false,
                Option::Some((entry, end)) => entry_model(entry) == m && end as int == e,
            },
        },
{
    proof {
        reveal_strlit("{\"when_utc\":\"");
        reveal_strlit("\",\"source\":");
        reveal_strlit(",\"dest\":");
        reveal_strlit(",\"op\":");
        reveal_strlit(",\"result\":");
        reveal_strlit(",\"message\":");
        reveal_strlit("}");
        reveal_strlit("null");
    }
    let p1 = match parse_lit(v, pos, "{\"when_utc\":\"") {
        Some(x) => x,
        None => {
            proof {
                assert(p_lit(v@, pos as int, "{\"when_utc\":\""@) is None);
                assert(p_entry(v@, pos as int) is None);
            }
            return None;
        },
    };
    let (ts, p2) = match parse_ts(v, p1) {
        Some(x) => x,
        None => {
            proof {
                assert(p_ts(v@, p1 as int) is None);
                assert(p_entry(v@, pos as int) is None);
            }
            return None;
        },
    };
    let p3 = match parse_lit(v, p2, "\",\"source\":") {
        Some(x) => x,
        None => {
            proof {
                assert(p_lit(v@, p2 as int, "\",\"source\":"@) is None);
                assert(p_entry(v@, pos as int) is None);
            }
            return None;
        },
    };
    let (source, p4) = match parse_str(v, p3) {
        Some(x) => x,
        None => {
            return None;
        },
    };
    let p5 = match parse_lit(v, p4, ",\"dest\":") {
        Some(x) => x,
        None => {
            return None;
        },
    };
    let (dest, p6) = match parse_str(v, p5) {
        Some(x) => x,
        None => {
            return None;
        },
    };
    let p7 = match parse_lit(v, p6, ",\"op\":") {
        Some(x) => x,
        None => {
            return None;
        },
    };
    let (opn, p8) = match parse_str(v, p7) {
        Some(x) => x,
        None => {
            return None;
        },
    };
    let op = match op_from_name(opn.as_str()) {
        Some(x) => x,
        None => {
            return None;
        },
    };
    let p9 = match parse_lit(v, p8, ",\"result\":") {
        Some(x) => x,
        None => {
            return None;
        },
    };
    let (resn, p10) = match parse_str(v, p9) {
        Some(x) => x,
        None => {
            return None;
        },
    };
    let result = match result_from_name(resn.as_str()) {
        Some(x) => x,
        None => {
            return None;
        },
    };
    let p11 = match parse_lit(v, p10, ",\"message\":") {
        Some(x) => x,
        None => {
            return None;
        },
    };
    let (message, p12): (Option<String>, usize) = match parse_lit(v, p11, "null") {
        Some(e) => (None, e),
        None => {
            match parse_str(v, p11) {
                Some((s, e)) => (Some(s), e),
                None => {
                    return None;
                },
            }
        },
    };
    let p13 = match parse_lit(v, p12, "}") {
        Some(x) => x,
        None => {
            return None;
        },
    };
    Some((JournalEntry { when_utc: ts, source, dest, op, result, message }, p13))
}

/// Reads a journal: entry lines, with blank lines permitted and ignored.
/// Fails with an `Undo` error exactly when the text does not parse.
pub fn parse_journal(text: &str) -> (r: Result<Vec<JournalEntry>, FileMoverError>)
    ensures
        match p_journal(text@, 0) {
            Option::None => r is Err && r->Err_0 is Undo,
            Option::Some(models) => {
                &&& r is Ok
                &&& r->Ok_0@.len() == models.len()
                &&& forall|k: int|
                    0 <= k < models.len() ==> entry_model(#[trigger] r->Ok_0@[k]) == models[k]
            },
        },
{
    let v = str_to_chars(text);
    let n = v.len();
    let mut out: Vec<JournalEntry> = Vec::new();
    let mut pos: usize = 0;
    while pos < n
        invariant
            pos <= n,
            n == text@.len(),
            v@ == text@,
            match p_journal(text@, 0) {
                Option::None => p_journal(text@, pos as int) is None,
                Option::Some(models) => match p_journal(text@, pos as int) {
                    Option::None => false,
                    Option::Some(rest) => models == journal_models(out@) + rest,
                },
            },
        decreases n - pos,
    {
        if v[pos] == '\n' {
            pos = pos + 1;
            continue ;
        }
        let ghost out_models_before = journal_models(out@);
        let parsed = parse_entry_exec(&v, pos);
        match parsed {
            Some((entry, end)) => {
                if end <= pos || end > n {
                    return Err(FileMoverError::Undo {
                        message: "the journal text does not parse".to_owned(),
                    });
                }
                out.push(entry);
                pos = end;
                proof {
                    match p_journal(text@, pos as int) {
                        Option::Some(rest) => {
                            assert(journal_models(out@) =~= out_models_before.push(
                                entry_model(entry),
                            ));
                            assert(out_models_before + (seq![entry_model(entry)] + rest)
                                =~= journal_models(out@) + rest);
                        },
                        Option::None => {},
                    }
                }
            },
            None => {
                return Err(FileMoverError::Undo {
                    message: "the journal text does not parse".to_owned(),
                });
            },
        }
    }
    proof {
        match p_journal(text@, 0) {
            Option::Some(models) => {
                assert(p_journal(text@, pos as int) == Some(Seq::<
                    (Timestamp, Seq<char>, Seq<char>, OpKind, ResultKind, Option<Seq<char>>),
                >::empty()));
                assert(models =~= journal_models(out@));
            },
            Option::None => {},
        }
    }
    Ok(out)
}

} // verus!
