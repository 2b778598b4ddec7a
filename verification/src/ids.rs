//! 64-bit identifiers and their decimal string form.
//!
//! The remote service serializes every 64-bit identifier as a decimal string;
//! stores parse them back to unsigned integers on load.

use vstd::prelude::*;
use crate::text::chars_to_string;

verus! {

/// A 64-bit identifier that travels as a decimal string.
#[derive(Debug, Clone, Copy, PartialEq, Eq, Structural)]
pub struct U64ReprStr(pub u64);

/// True when `c` is a decimal digit.
pub open spec fn is_digit(c: char) -> bool {
    48 <= c as u32 <= 57
}

/// Numeric value of a digit character.
pub open spec fn digit_val(c: char) -> int {
    c as u32 - 48
}

/// True when every character of `s` is a decimal digit.
pub open spec fn all_digits(s: Seq<char>) -> bool {
    forall|i: int| 0 <= i < s.len() ==> is_digit(#[trigger] s[i])
}

/// Value of a digit string read most-significant first.
pub open spec fn digits_val(s: Seq<char>) -> int
    decreases s.len(),
{
    if s.len() == 0 {
        0
    } else {
        digits_val(s.drop_last()) * 10 + digit_val(s.last())
    }
}

/// The canonical decimal digits of `n`: no leading zero except for zero
/// itself.
pub open spec fn canonical_digits(s: Seq<char>, n: int) -> bool {
    &&& all_digits(s)
    &&& digits_val(s) == n
    &&& s.len() >= 1
    &&& (s.len() > 1 ==> s[0] != '0')
}

/// Powers of ten.
pub open spec fn pow10(k: nat) -> int
    decreases k,
{
    if k == 0 {
        1
    } else {
        10 * pow10((k - 1) as nat)
    }
}

proof fn lemma_pow10_pos(k: nat)
    ensures
        pow10(k) >= 1,
    decreases k,
{
    if k > 0 {
        lemma_pow10_pos((k - 1) as nat);
    }
}

/// Prepending a digit raises the value of the rest by that digit times the
/// matching power of ten.
proof fn lemma_shift_val(c: char, s: Seq<char>)
    ensures
        digits_val(seq![c] + s) == digit_val(c) * pow10(s.len()) + digits_val(s),
    decreases s.len(),
{
    if s.len() == 0 {
        assert(seq![c] + s =~= seq![c]);
        assert((seq![c]).drop_last() =~= Seq::<char>::empty());
        assert(digits_val(Seq::<char>::empty()) == 0);
        assert((seq![c]).last() == c);
        assert(digits_val(seq![c]) == digit_val(c));
        assert(pow10(0) == 1);
        assert(digit_val(c) * 1 == digit_val(c)) by (nonlinear_arith);
    } else {
        let t = s.drop_last();
        lemma_shift_val(c, t);
        assert((seq![c] + s).drop_last() =~= seq![c] + t);
        assert(digits_val(seq![c] + s) == digits_val(seq![c] + t) * 10 + digit_val(s.last()));
        assert((digit_val(c) * pow10(t.len()) + digits_val(t)) * 10 == digit_val(c) * (10 * pow10(
        t.len())) + digits_val(t) * 10) by (nonlinear_arith);
        assert(pow10(s.len()) == 10 * pow10(t.len()));
        assert(digits_val(s) == digits_val(t) * 10 + digit_val(s.last()));
    }
}

/// Parses a decimal digit string into a `u64`.
///
/// Returns the numeric value exactly when the string is non-empty, holds
/// digits only, and its value fits in 64 bits; otherwise nothing.
pub fn parse_u64(s: &Vec<char>) -> (r: Option<u64>)
    ensures
        match r {
            Option::Some(n) => s@.len() > 0 && all_digits(s@) && digits_val(s@) == n,
            Option::None => s@.len() == 0 || !all_digits(s@) || digits_val(s@) > u64::MAX,
        },
{
    if s.len() == 0 {
        return None;
    }
    let mut acc: u64 = 0;
    let mut i: usize = 0;
    while i < s.len()
        invariant
            0 <= i <= s@.len(),
            all_digits(s@.subrange(0, i as int)),
            acc == digits_val(s@.subrange(0, i as int)),
        decreases s@.len() - i,
    {
        let c: char = s[i];
        let cv: u32 = c as u32;
        if cv < 48 || cv > 57 {
            assert(!is_digit(s@[i as int]));
            return None;
        }
        let d: u64 = (cv - 48) as u64;
        proof {
            let p = s@.subrange(0, (i + 1) as int);
            assert(p.drop_last() =~= s@.subrange(0, i as int));
            assert(p.last() == s@[i as int]);
            assert(digits_val(p) == acc * 10 + d);
            assert(forall|j: int| 0 <= j < i + 1 ==> is_digit(#[trigger] p[j]));
        }
        if acc > (u64::MAX - d) / 10 {
            proof {
                lemma_tail_keeps_overflow(s@, i + 1);
            }
            return None;
        }
        acc = acc * 10 + d;
        i = i + 1;
    }
    proof {
        assert(s@.subrange(0, s@.len() as int) =~= s@);
    }
    Some(acc)
}

/// Once a digit-string prefix exceeds `u64::MAX`, every longer prefix of the
/// same string does too.
proof fn lemma_tail_keeps_overflow(s: Seq<char>, from: int)
    requires
        0 < from <= s.len(),
        digits_val(s.subrange(0, from)) > u64::MAX,
    ensures
        digits_val(s) > u64::MAX || !all_digits(s),
    decreases s.len() - from,
{
    if !all_digits(s) {
        return;
    }
    if from == s.len() {
        assert(s.subrange(0, from) =~= s);
    } else {
        let p = s.subrange(0, from + 1);
        assert(p.drop_last() =~= s.subrange(0, from));
        assert(is_digit(s[from]));
        assert(digits_val(p) == digits_val(s.subrange(0, from)) * 10 + digit_val(p.last()));
        lemma_tail_keeps_overflow(s, from + 1);
    }
}

/// Executable test for a decimal digit.
pub fn is_digit_exec(c: char) -> (r: bool)
    ensures
        r == is_digit(c),
{
    let u: u32 = c as u32;
    48 <= u && u <= 57
}

/// Digit character for a value below ten.
fn digit_char(d: u64) -> (c: char)
    requires
        d < 10,
    ensures
        is_digit(c),
        digit_val(c) == d,
{
    match d {
        0 => '0',
        1 => '1',
        2 => '2',
        3 => '3',
        4 => '4',
        5 => '5',
        6 => '6',
        7 => '7',
        8 => '8',
        _ => '9',
    }
}

/// The reversal of a sequence.
pub open spec fn reversed(s: Seq<char>) -> Seq<char> {
    Seq::new(s.len(), |j: int| s[s.len() - 1 - j])
}

/// Renders `n` as its canonical decimal digit sequence.
pub fn u64_digits(n: u64) -> (r: Vec<char>)
    ensures
        canonical_digits(r@, n as int),
{
    let mut rev: Vec<char> = Vec::new();
    if n == 0 {
        rev.push('0');
        proof {
            assert(rev@ =~= seq!['0']);
            assert((seq!['0']).drop_last() =~= Seq::<char>::empty());
            assert(digits_val(Seq::<char>::empty()) == 0);
            assert(digit_val('0') == 0);
            assert(digits_val(rev@) == 0);
            assert(forall|j: int| 0 <= j < rev@.len() ==> is_digit(#[trigger] rev@[j]));
        }
        return rev;
    }
    let mut m: u64 = n;
    while m > 0
        invariant
            n > 0,
            digits_val(reversed(rev@)) + m * pow10(rev@.len()) == n,
            all_digits(rev@),
            m > 0 || (rev@.len() > 0 && rev@.last() != '0'),
        decreases m,
    {
        let d: u64 = m % 10;
        let c: char = digit_char(d);
        let ghost old_rev = rev@;
        let ghost old_m = m;
        rev.push(c);
        m = m / 10;
        proof {
            let p = pow10(old_rev.len());
            let q: int = old_m as int / 10;
            assert(reversed(old_rev.push(c)) =~= seq![c] + reversed(old_rev));
            lemma_shift_val(c, reversed(old_rev));
            assert(pow10(rev@.len()) == 10 * p);
            assert(old_m * p == q * (10 * p) + d * p) by (nonlinear_arith)
                requires
                    old_m == 10 * q + d,
                    p == pow10(old_rev.len()),
            ;
            if m == 0 {
                assert(d == old_m);
                assert(c != '0');
            }
        }
    }
    let mut out: Vec<char> = Vec::new();
    let mut i: usize = rev.len();
    while i > 0
        invariant
            0 <= i <= rev@.len(),
            out@.len() == rev@.len() - i,
            forall|j: int| 0 <= j < out@.len() ==> out@[j] == rev@[rev@.len() - 1 - j],
        decreases i,
    {
        i = i - 1;
        let c: char = rev[i];
        out.push(c);
    }
    proof {
        assert(out@ =~= reversed(rev@));
        lemma_pow10_pos(rev@.len());
        assert(forall|j: int| 0 <= j < out@.len() ==> is_digit(#[trigger] out@[j]));
        assert(out@[0] == rev@.last());
    }
    out
}

/// Renders `n` as its decimal string.
pub fn u64_to_string(n: u64) -> (r: String)
    ensures
        canonical_digits(r@, n as int),
{
    let digits: Vec<char> = u64_digits(n);
    chars_to_string(&digits)
}

} // verus!
