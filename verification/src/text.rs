//! Characters and strings.
//!
//! The parsing and formatting logic works over character vectors; these
//! helpers convert between them and `String`, compare against string
//! literals, and implement the character classes the log format uses.

use vstd::prelude::*;
use vstd::string::*;

verus! {

/// Relies on `String`'s `FromIterator<char>` impl: collecting characters
/// yields the string of exactly those characters in order.
#[verifier::external_body]
pub fn chars_to_string(v: &Vec<char>) -> (s: String)
    ensures
        s@ == v@,
{
    v.iter().collect()
}

/// Relies on `str::chars`: the iterator yields the characters of the string
/// in order.
#[verifier::external_body]
pub fn string_to_chars(s: &str) -> (v: Vec<char>)
    ensures
        v@ == s@,
{
    s.chars().collect()
}

/// True when `line` starts with the literal `pre`.
pub fn starts_with_lit(line: &Vec<char>, pre: &str) -> (r: bool)
    ensures
        r == (line@.len() >= pre@.len() && line@.subrange(0, pre@.len() as int) =~= pre@),
{
    let n: usize = pre.unicode_len();
    if line.len() < n {
        return false;
    }
    let mut i: usize = 0;
    while i < n
        invariant
            0 <= i <= n,
            n == pre@.len(),
            line@.len() >= n,
            forall|j: int| 0 <= j < i ==> line@[j] == pre@[j],
        decreases n - i,
    {
        let pc: char = pre.get_char(i);
        let lc: char = line[i];
        if lc != pc {
            return false;
        }
        i = i + 1;
    }
    proof {
        assert(line@.subrange(0, n as int) =~= pre@);
    }
    true
}

/// True when `line` ends with the literal `suf`.
pub fn ends_with_lit(line: &Vec<char>, suf: &str) -> (r: bool)
    ensures
        r == (line@.len() >= suf@.len() && line@.subrange(
            line@.len() - suf@.len(),
            line@.len() as int,
        ) =~= suf@),
{
    let n: usize = suf.unicode_len();
    if line.len() < n {
        return false;
    }
    let off: usize = line.len() - n;
    let mut i: usize = 0;
    while i < n
        invariant
            0 <= i <= n,
            n == suf@.len(),
            line@.len() >= n,
            off == line@.len() - n,
            off + n <= usize::MAX,
            forall|j: int| 0 <= j < i ==> line@[off + j] == suf@[j],
        decreases n - i,
    {
        let sc: char = suf.get_char(i);
        let lc: char = line[off + i];
        if lc != sc {
            return false;
        }
        i = i + 1;
    }
    proof {
        assert(line@.subrange(line@.len() - n, line@.len() as int) =~= suf@);
    }
    true
}

/// True when the two character sequences are equal.
pub fn chars_eq(a: &Vec<char>, b: &Vec<char>) -> (r: bool)
    ensures
        r == (a@ =~= b@),
{
    if a.len() != b.len() {
        return false;
    }
    let mut i: usize = 0;
    while i < a.len()
        invariant
            0 <= i <= a@.len(),
            a@.len() == b@.len(),
            forall|j: int| 0 <= j < i ==> a@[j] == b@[j],
        decreases a@.len() - i,
    {
        if a[i] != b[i] {
            return false;
        }
        i = i + 1;
    }
    true
}

/// True when the character sequence equals the literal.
pub fn chars_eq_lit(a: &Vec<char>, lit: &str) -> (r: bool)
    ensures
        r == (a@ =~= lit@),
{
    let n: usize = lit.unicode_len();
    if a.len() != n {
        return false;
    }
    starts_with_lit(a, lit)
}

/// The White_Space character class used by trimming, written out in full.
pub open spec fn is_space(c: char) -> bool {
    let u = c as u32;
    u == 0x20 || u == 0x9 || u == 0xA || u == 0xB || u == 0xC || u == 0xD || u == 0x85 || u == 0xA0
        || u == 0x1680 || (0x2000 <= u <= 0x200A) || u == 0x2028 || u == 0x2029 || u == 0x202F
        || u == 0x205F || u == 0x3000
}

/// Executable test for `is_space`.
pub fn is_space_exec(c: char) -> (r: bool)
    ensures
        r == is_space(c),
{
    let u = c as u32;
    u == 0x20 || u == 0x9 || u == 0xA || u == 0xB || u == 0xC || u == 0xD || u == 0x85 || u == 0xA0
        || u == 0x1680 || (0x2000 <= u && u <= 0x200A) || u == 0x2028 || u == 0x2029 || u == 0x202F
        || u == 0x205F || u == 0x3000
}

/// The subsequence with leading and trailing whitespace removed.
pub open spec fn spec_trim(s: Seq<char>) -> Seq<char>
    decreases s.len(),
{
    if s.len() == 0 {
        s
    } else if is_space(s[0]) {
        spec_trim(s.drop_first())
    } else if is_space(s.last()) {
        spec_trim(s.drop_last())
    } else {
        s
    }
}

/// Removes leading and trailing whitespace.
pub fn trim_chars(s: &Vec<char>) -> (r: Vec<char>)
    ensures
        r@ == spec_trim(s@),
{
    let mut lo: usize = 0;
    let mut hi: usize = s.len();
    proof {
        assert(s@.subrange(0, s@.len() as int) =~= s@);
    }
    while lo < hi && is_space_exec(s[lo])
        invariant
            0 <= lo <= hi <= s@.len(),
            hi == s@.len(),
            spec_trim(s@) == spec_trim(s@.subrange(lo as int, hi as int)),
        decreases hi - lo,
    {
        proof {
            let cur = s@.subrange(lo as int, hi as int);
            assert(cur.drop_first() =~= s@.subrange(lo + 1, hi as int));
        }
        lo = lo + 1;
    }
    while lo < hi && is_space_exec(s[hi - 1])
        invariant
            0 <= lo <= hi <= s@.len(),
            spec_trim(s@) == spec_trim(s@.subrange(lo as int, hi as int)),
            lo < hi ==> !is_space(s@[lo as int]),
        decreases hi - lo,
    {
        proof {
            let cur = s@.subrange(lo as int, hi as int);
            assert(cur.drop_last() =~= s@.subrange(lo as int, hi - 1));
        }
        hi = hi - 1;
    }
    let mut out: Vec<char> = Vec::new();
    let mut i: usize = lo;
    while i < hi
        invariant
            lo <= i <= hi <= s@.len(),
            out@ =~= s@.subrange(lo as int, i as int),
        decreases hi - i,
    {
        let c: char = s[i];
        out.push(c);
        i = i + 1;
    }
    proof {
        let fin = s@.subrange(lo as int, hi as int);
        assert(out@ =~= fin);
        if lo < hi {
            assert(!is_space(fin[0]));
            assert(!is_space(fin.last()));
        }
    }
    out
}

/// Pushes every character of `src` onto `dst`.
pub fn extend_chars(dst: &mut Vec<char>, src: &Vec<char>)
    ensures
        final(dst)@ == old(dst)@ + src@,
{
    let mut i: usize = 0;
    while i < src.len()
        invariant
            0 <= i <= src@.len(),
            dst@ =~= old(dst)@ + src@.subrange(0, i as int),
        decreases src@.len() - i,
    {
        let c: char = src[i];
        dst.push(c);
        i = i + 1;
    }
    proof {
        assert(dst@ =~= old(dst)@ + src@);
    }
}


/// A line with a trailing carriage return stripped: the log format's line
/// terminators are a newline or a carriage return and a newline.
pub open spec fn strip_cr(l: Seq<char>) -> Seq<char> {
    if l.len() > 0 && l.last() == '\r' {
        l.drop_last()
    } else {
        l
    }
}

/// Splitting into lines, carried through an accumulator: a newline ends the
/// pending line; a final pending line is kept only when it is non-empty.
pub open spec fn spec_split_acc(s: Seq<char>, cur: Seq<char>, out: Seq<Seq<char>>) -> Seq<
    Seq<char>,
>
    decreases s.len(),
{
    if s.len() == 0 {
        if cur.len() == 0 {
            out
        } else {
            out.push(cur)
        }
    } else if s[0] == '\n' {
        spec_split_acc(s.drop_first(), Seq::empty(), out.push(strip_cr(cur)))
    } else {
        spec_split_acc(s.drop_first(), cur.push(s[0]), out)
    }
}

/// The lines of a text.
pub open spec fn spec_lines_of(s: Seq<char>) -> Seq<Seq<char>> {
    spec_split_acc(s, Seq::empty(), Seq::empty())
}

/// The views of a vector of character lines.
pub open spec fn views_of(v: Seq<Vec<char>>) -> Seq<Seq<char>> {
    v.map_values(|l: Vec<char>| l@)
}

/// Splits a text into lines: a newline ends a line, a carriage return
/// before it is dropped, and a trailing newline adds no empty line.
pub fn split_lines(text: &Vec<char>) -> (r: Vec<Vec<char>>)
    ensures
        views_of(r@) == spec_lines_of(text@),
{
    let mut out: Vec<Vec<char>> = Vec::new();
    let mut cur: Vec<char> = Vec::new();
    let mut i: usize = 0;
    proof {
        assert(views_of(out@) =~= Seq::<Seq<char>>::empty());
        assert(text@.subrange(0, text@.len() as int) =~= text@);
    }
    while i < text.len()
        invariant
            0 <= i <= text@.len(),
            spec_split_acc(text@.subrange(i as int, text@.len() as int), cur@, views_of(out@))
                == spec_lines_of(text@),
        decreases text@.len() - i,
    {
        let ghost rest = text@.subrange(i as int, text@.len() as int);
        proof {
            assert(rest[0] == text@[i as int]);
            assert(rest.drop_first() =~= text@.subrange(i + 1, text@.len() as int));
        }
        let c: char = text[i];
        if c == '\n' {
            let ghost cur_old = cur@;
            let ghost out_old = out@;
            if cur.len() > 0 && cur[cur.len() - 1] == '\r' {
                cur.pop();
            }
            proof {
                assert(cur@ =~= strip_cr(cur_old));
            }
            out.push(cur);
            cur = Vec::new();
            proof {
                assert(views_of(out@) =~= views_of(out_old).push(strip_cr(cur_old)));
                assert(cur@ =~= Seq::<char>::empty());
            }
        } else {
            cur.push(c);
        }
        i = i + 1;
    }
    if cur.len() > 0 {
        let ghost out_old = out@;
        let ghost cur_v = cur@;
        out.push(cur);
        proof {
            assert(views_of(out@) =~= views_of(out_old).push(cur_v));
        }
    }
    out
}

} // verus!
