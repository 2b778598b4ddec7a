//! The historical-log parser.
//!
//! A log is plain text: date header lines ("---- 7 June 2019 ----") set the
//! current day; a message starts with "[HH:MM:SS] name: text", may continue
//! over following lines, and may end with attachment links and blank lines.
//! A header whose date would move backwards is treated as ordinary message
//! text: logs quote such lines, and days never run in reverse.

use vstd::prelude::*;
use crate::clock::{Date, Ts, spec_ts_of, ts_of_date_time};
use crate::ids::{all_digits, digits_val, is_digit};
use crate::merge::TempMessage;
use crate::text::{chars_eq, chars_eq_lit, chars_to_string, ends_with_lit, spec_trim,
    starts_with_lit, trim_chars};

verus! {

/// The ghost image of a parsed candidate: every field by its view.
pub ghost struct TempView {
    pub timestamp: Ts,
    pub username: Seq<char>,
    pub text: Seq<char>,
    pub attachments: Seq<Seq<char>>,
}

impl View for TempMessage {
    type V = TempView;

    open spec fn view(&self) -> TempView {
        TempView {
            timestamp: self.timestamp,
            username: self.username@,
            text: self.text@,
            attachments: self.attachments@.map_values(|s: String| s@),
        }
    }
}

/// The views of a vector of character lines.
pub open spec fn line_views(v: Seq<Vec<char>>) -> Seq<Seq<char>> {
    v.map_values(|l: Vec<char>| l@)
}

/// The views of a vector of parsed candidates.
pub open spec fn temp_views(v: Seq<TempMessage>) -> Seq<TempView> {
    v.map_values(|t: TempMessage| t@)
}

/// First position at or after `from` that does not hold a digit.
pub open spec fn digit_run_end(l: Seq<char>, from: int) -> int
    decreases l.len() - from,
{
    if from < l.len() && is_digit(l[from]) {
        digit_run_end(l, from + 1)
    } else {
        from
    }
}

/// First position at or after `from` that holds a colon, or the length.
pub open spec fn colon_pos(l: Seq<char>, from: int) -> int
    decreases l.len() - from,
{
    if from < l.len() && l[from] != ':' {
        colon_pos(l, from + 1)
    } else {
        from
    }
}

/// A well-formed numeric segment: non-empty, all digits, and small enough
/// for a 32-bit number.
pub open spec fn seg_ok(l: Seq<char>, a: int, b: int) -> bool {
    b > a && digits_val(l.subrange(a, b)) <= u32::MAX
}

/// Value of a numeric segment.
pub open spec fn seg_val(l: Seq<char>, a: int, b: int) -> int {
    digits_val(l.subrange(a, b))
}

/// How many trailing lines are empty.
pub open spec fn trailing_empty(ls: Seq<Seq<char>>) -> int
    decreases ls.len(),
{
    if ls.len() > 0 && ls.last().len() == 0 {
        1 + trailing_empty(ls.drop_last())
    } else {
        0
    }
}

/// Whether a line is an attachment link of the remote service's file host.
pub open spec fn is_att_line(l: Seq<char>) -> bool {
    l.len() >= "https://cdn.discordapp.com/attachments/"@.len() && l.subrange(
        0,
        "https://cdn.discordapp.com/attachments/"@.len() as int,
    ) == "https://cdn.discordapp.com/attachments/"@
}

/// How many attachment lines run backwards from position `upto`.
pub open spec fn att_run(ls: Seq<Seq<char>>, upto: int) -> int
    decreases upto,
{
    if upto > 0 && is_att_line(ls[upto - 1]) {
        1 + att_run(ls, upto - 1)
    } else {
        0
    }
}

/// Middle lines joined onto the first-line text, one newline before each.
pub open spec fn join_middle(ls: Seq<Seq<char>>, from: int, cnt: int, acc: Seq<char>) -> Seq<char>
    decreases cnt,
{
    if cnt <= 0 {
        acc
    } else {
        join_middle(ls, from + 1, cnt - 1, acc + seq!['\n'] + ls[from])
    }
}

/// The timestamp prefix and author split of a message's first line:
/// "[HH:MM:SS] name: text".  Yields the time of day, the author name, and
/// where the first line's own text starts (the length when there is none).
pub open spec fn spec_first_line(l: Seq<char>) -> Option<(int, int, int, int, int)> {
    if l.len() == 0 || l[0] != '[' {
        None
    } else {
        let e1 = digit_run_end(l, 1);
        if !seg_ok(l, 1, e1) || e1 >= l.len() || l[e1] != ':' {
            None
        } else {
            let e2 = digit_run_end(l, e1 + 1);
            if !seg_ok(l, e1 + 1, e2) || e2 >= l.len() || l[e2] != ':' {
                None
            } else {
                let e3 = digit_run_end(l, e2 + 1);
                if !seg_ok(l, e2 + 1, e3) {
                    None
                } else {
                    let h = seg_val(l, 1, e1);
                    let mi = seg_val(l, e1 + 1, e2);
                    let s = seg_val(l, e2 + 1, e3);
                    if !(h < 24 && mi < 60 && s < 60) {
                        None
                    } else if !(e3 + 2 <= l.len() && l[e3] == ']' && l[e3 + 1] == ' ') {
                        None
                    } else {
                        let ce = colon_pos(l, e3 + 2);
                        Some((h, mi, s, e3 + 2, ce))
                    }
                }
            }
        }
    }
}

/// Where the first line's own text starts: after a colon and a space, or
/// nowhere (given as the line length).
pub open spec fn text_start(l: Seq<char>, ce: int) -> int {
    if ce + 2 <= l.len() && l[ce + 1] == ' ' {
        ce + 2
    } else {
        l.len() as int
    }
}

/// The whole candidate a line block parses to under a given day, or nothing
/// when the first line has no well-formed timestamp prefix or the author is
/// not among the allowed names.
pub open spec fn spec_parse_temp(
    ls: Seq<Seq<char>>,
    date: Date,
    allowed: Option<Seq<Seq<char>>>,
) -> Option<TempView> {
    if ls.len() == 0 {
        None
    } else {
        let l = ls[0];
        match spec_first_line(l) {
            None => None,
            Some((h, mi, s, after, ce)) => {
                let username = l.subrange(after, ce);
                if allowed matches Some(names) && !names.contains(username) {
                    None
                } else {
                    let t0 = l.subrange(text_start(l, ce), l.len() as int);
                    let empty_cnt = trailing_empty(ls);
                    let raw_att = att_run(ls, ls.len() - empty_cnt);
                    let cleared = is_att_line(t0);
                    let att_cnt = if cleared {
                        0
                    } else {
                        raw_att
                    };
                    let atts = Seq::new(
                        att_cnt as nat,
                        |j: int| ls[ls.len() - empty_cnt - 1 - j],
                    );
                    let mid_cnt = ls.len() - 1 - att_cnt - empty_cnt;
                    let text = spec_trim(join_middle(ls, 1, mid_cnt, t0));
                    Some(
                        TempView {
                            timestamp: spec_ts_of(date, h, mi, s),
                            username,
                            text,
                            attachments: atts,
                        },
                    )
                }
            },
        }
    }
}

/// Copies a subrange of a line.
fn sub_chars(l: &Vec<char>, from: usize, to: usize) -> (r: Vec<char>)
    requires
        from <= to <= l@.len(),
    ensures
        r@ == l@.subrange(from as int, to as int),
{
    let mut out: Vec<char> = Vec::new();
    let mut i: usize = from;
    while i < to
        invariant
            from <= i <= to <= l@.len(),
            out@ =~= l@.subrange(from as int, i as int),
        decreases to - i,
    {
        let c: char = l[i];
        out.push(c);
        i = i + 1;
    }
    proof {
        assert(out@ =~= l@.subrange(from as int, to as int));
    }
    out
}

/// First position at or after `from` without a digit.
fn take_digits(l: &Vec<char>, from: usize) -> (end: usize)
    requires
        from <= l@.len(),
    ensures
        end == digit_run_end(l@, from as int),
        from <= end <= l@.len(),
{
    let mut i: usize = from;
    while i < l.len() && crate::ids::is_digit_exec(l[i])
        invariant
            from <= i <= l@.len(),
            digit_run_end(l@, from as int) == digit_run_end(l@, i as int),
        decreases l@.len() - i,
    {
        i = i + 1;
    }
    i
}

/// First colon at or after `from`, or the length.
fn take_to_colon(l: &Vec<char>, from: usize) -> (end: usize)
    requires
        from <= l@.len(),
    ensures
        end == colon_pos(l@, from as int),
        from <= end <= l@.len(),
{
    let mut i: usize = from;
    while i < l.len() && l[i] != ':'
        invariant
            from <= i <= l@.len(),
            colon_pos(l@, from as int) == colon_pos(l@, i as int),
        decreases l@.len() - i,
    {
        i = i + 1;
    }
    i
}

/// Parses a numeric segment as a 32-bit number.
fn parse_seg(l: &Vec<char>, from: usize, to: usize) -> (r: Option<u32>)
    requires
        from <= to <= l@.len(),
    ensures
        match r {
            Some(v) => seg_ok(l@, from as int, to as int) && all_digits(
                l@.subrange(from as int, to as int),
            ) && v == seg_val(l@, from as int, to as int),
            None => !(seg_ok(l@, from as int, to as int) && all_digits(
                l@.subrange(from as int, to as int),
            )),
        },
{
    let seg: Vec<char> = sub_chars(l, from, to);
    match crate::ids::parse_u64(&seg) {
        Some(v) => {
            if v <= 0xffff_ffff {
                Some(v as u32)
            } else {
                None
            }
        },
        None => None,
    }
}

/// Number of trailing empty lines.
fn count_trailing_empty(ls: &Vec<Vec<char>>) -> (n: usize)
    ensures
        n == trailing_empty(line_views(ls@)),
        n <= ls@.len(),
{
    let mut n: usize = 0;
    let total: usize = ls.len();
    proof {
        assert(line_views(ls@).subrange(0, total as int) =~= line_views(ls@));
    }
    while n < total && ls[total - n - 1].len() == 0
        invariant
            0 <= n <= total == ls@.len(),
            trailing_empty(line_views(ls@)) == n + trailing_empty(
                line_views(ls@).subrange(0, (total - n) as int),
            ),
        decreases total - n,
    {
        proof {
            let cur = line_views(ls@).subrange(0, (total - n) as int);
            assert(cur.last() == ls@[total - n - 1]@);
            assert(cur.drop_last() =~= line_views(ls@).subrange(0, (total - n - 1) as int));
        }
        n = n + 1;
    }
    proof {
        let cur = line_views(ls@).subrange(0, (total - n) as int);
        if n < total {
            assert(cur.last() == ls@[total - n - 1]@);
        }
    }
    n
}

/// Number of attachment lines running backwards from `upto`.
fn count_att_run(ls: &Vec<Vec<char>>, upto: usize) -> (n: usize)
    requires
        upto <= ls@.len(),
    ensures
        n == att_run(line_views(ls@), upto as int),
        n <= upto,
{
    let mut n: usize = 0;
    while n < upto && starts_with_lit(&ls[upto - n - 1], "https://cdn.discordapp.com/attachments/")
        invariant
            0 <= n <= upto <= ls@.len(),
            att_run(line_views(ls@), upto as int) == n + att_run(
                line_views(ls@),
                (upto - n) as int,
            ),
        decreases upto - n,
    {
        proof {
            assert(line_views(ls@)[upto - n - 1] == ls@[upto - n - 1]@);
        }
        n = n + 1;
    }
    proof {
        if n < upto {
            assert(line_views(ls@)[upto - n - 1] == ls@[upto - n - 1]@);
        }
    }
    n
}

/// Parses one message block under a given day: the timestamp prefix and
/// author from the first line, continuation text from the middle lines, and
/// trailing attachment links, exactly as `spec_parse_temp` lays it out.
pub fn parse_temp_message(
    ls: &Vec<Vec<char>>,
    date: &Date,
    allowed: Option<&Vec<Vec<char>>>,
) -> (r: Option<TempMessage>)
    requires
        date.wf(),
    ensures
        match r {
            Some(t) => spec_parse_temp(
                line_views(ls@),
                *date,
                match allowed {
                    Some(a) => Some(line_views(a@)),
                    None => None,
                },
            ) == Some(t@),
            None => spec_parse_temp(
                line_views(ls@),
                *date,
                match allowed {
                    Some(a) => Some(line_views(a@)),
                    None => None,
                },
            ) is None,
        },
{
    let ghost lsv = line_views(ls@);
    if ls.len() == 0 {
        return None;
    }
    let l: &Vec<char> = &ls[0];
    proof {
        assert(lsv[0] == l@);
    }
    if l.len() == 0 {
        return None;
    }
    if l[0] != '[' {
        return None;
    }
    let e1: usize = take_digits(l, 1);
    proof {
        lemma_digit_run_all(l@, 1);
    }
    let h: u32 = match parse_seg(l, 1, e1) {
        Some(v) => v,
        None => {
            return None;
        },
    };
    if e1 >= l.len() || l[e1] != ':' {
        return None;
    }
    let e2: usize = take_digits(l, e1 + 1);
    proof {
        lemma_digit_run_all(l@, e1 + 1);
    }
    let mi: u32 = match parse_seg(l, e1 + 1, e2) {
        Some(v) => v,
        None => {
            return None;
        },
    };
    if e2 >= l.len() || l[e2] != ':' {
        return None;
    }
    let e3: usize = take_digits(l, e2 + 1);
    proof {
        lemma_digit_run_all(l@, e2 + 1);
    }
    let s: u32 = match parse_seg(l, e2 + 1, e3) {
        Some(v) => v,
        None => {
            return None;
        },
    };
    if !(h < 24 && mi < 60 && s < 60) {
        return None;
    }
    if l.len() < 2 || e3 > l.len() - 2 {
        return None;
    }
    if l[e3] != ']' || l[e3 + 1] != ' ' {
        return None;
    }
    let after: usize = e3 + 2;
    let ce: usize = take_to_colon(l, after);
    let username: Vec<char> = sub_chars(l, after, ce);
    match allowed {
        Some(names) => {
            let mut found: bool = false;
            let mut i: usize = 0;
            while i < names.len()
                invariant
                    0 <= i <= names@.len(),
                    found == exists|k: int|
                        0 <= k < i && line_views(names@)[k] == username@,
                decreases names@.len() - i,
            {
                if chars_eq(&names[i], &username) {
                    proof {
                        assert(line_views(names@)[i as int] == names@[i as int]@);
                    }
                    found = true;
                }
                i = i + 1;
            }
            if !found {
                proof {
                    if line_views(names@).contains(username@) {
                        let k = choose|k: int|
                            0 <= k < line_views(names@).len() && line_views(names@)[k]
                                == username@;
                        assert(false);
                    }
                }
                return None;
            }
            proof {
                let k = choose|k: int| 0 <= k < names@.len() && line_views(names@)[k] == username@;
                assert(line_views(names@).contains(username@));
            }
        },
        None => {},
    }
    let ts_start: usize = if l.len() >= 2 && ce <= l.len() - 2 && l[ce + 1] == ' ' {
        ce + 2
    } else {
        l.len()
    };
    proof {
        assert(ts_start == text_start(l@, ce as int));
    }
    let t0: Vec<char> = sub_chars(l, ts_start, l.len());
    let empty_cnt: usize = count_trailing_empty(ls);
    proof {
        lemma_trailing_empty_bound(lsv);
    }
    let raw_att: usize = count_att_run(ls, ls.len() - empty_cnt);
    proof {
        reveal_strlit("https://cdn.discordapp.com/attachments/");
        assert(!is_att_line(lsv[0])) by {
            if is_att_line(lsv[0]) {
                assert(lsv[0].subrange(
                    0,
                    "https://cdn.discordapp.com/attachments/"@.len() as int,
                )[0] == lsv[0][0]);
            }
        }
        lemma_att_run_bound(lsv, (lsv.len() - empty_cnt) as int);
    }
    let cleared: bool = starts_with_lit(&t0, "https://cdn.discordapp.com/attachments/");
    let att_cnt: usize = if cleared {
        0
    } else {
        raw_att
    };
    let mut atts: Vec<String> = Vec::new();
    let mut j: usize = 0;
    while j < att_cnt
        invariant
            0 <= j <= att_cnt,
            empty_cnt + att_cnt <= lsv.len(),
            lsv == line_views(ls@),
            atts@.len() == j,
            forall|k: int|
                0 <= k < j ==> (#[trigger] atts@[k])@ == lsv[lsv.len() - empty_cnt - 1 - k],
        decreases att_cnt - j,
    {
        proof {
            assert(lsv[ls@.len() - empty_cnt - 1 - j] == ls@[ls@.len() - empty_cnt - 1 - j]@);
        }
        let line: &Vec<char> = &ls[ls.len() - empty_cnt - 1 - j];
        let u: String = chars_to_string(line);
        atts.push(u);
        j = j + 1;
    }
    let mid_cnt: usize = ls.len() - 1 - att_cnt - empty_cnt;
    let mut text: Vec<char> = t0;
    let mut k: usize = 0;
    while k < mid_cnt
        invariant
            0 <= k <= mid_cnt,
            1 + mid_cnt <= lsv.len(),
            lsv == line_views(ls@),
            join_middle(lsv, 1 + k, mid_cnt - k, text@) == join_middle(
                lsv,
                1,
                mid_cnt as int,
                l@.subrange(ts_start as int, l@.len() as int),
            ),
        decreases mid_cnt - k,
    {
        let ghost before = text@;
        text.push('\n');
        proof {
            assert(lsv[1 + k] == ls@[1 + k]@);
        }
        let line: &Vec<char> = &ls[1 + k];
        crate::text::extend_chars(&mut text, line);
        proof {
            assert(text@ =~= before + seq!['\n'] + lsv[1 + k]);
        }
        k = k + 1;
    }
    let trimmed: Vec<char> = trim_chars(&text);
    let out = TempMessage {
        timestamp: ts_of_date_time(date, h, mi, s),
        username: chars_to_string(&username),
        text: chars_to_string(&trimmed),
        attachments: atts,
    };
    proof {
        assert(out@.attachments =~= Seq::new(
            att_cnt as nat,
            |j2: int| lsv[lsv.len() - empty_cnt - 1 - j2],
        ));
    }
    Some(out)
}

/// Trailing empty lines never reach a non-empty first line.
proof fn lemma_trailing_empty_bound(ls: Seq<Seq<char>>)
    requires
        ls.len() > 0,
        ls[0].len() > 0,
    ensures
        trailing_empty(ls) <= ls.len() - 1,
    decreases ls.len(),
{
    if ls.len() > 0 && ls.last().len() == 0 {
        assert(ls.drop_last()[0] == ls[0]);
        lemma_trailing_empty_bound(ls.drop_last());
    }
}

/// The characters of a digit run are digits.
proof fn lemma_digit_run_all(l: Seq<char>, from: int)
    requires
        0 <= from <= l.len(),
    ensures
        from <= digit_run_end(l, from) <= l.len(),
        all_digits(l.subrange(from, digit_run_end(l, from))),
    decreases l.len() - from,
{
    if from < l.len() && is_digit(l[from]) {
        lemma_digit_run_all(l, from + 1);
        let e = digit_run_end(l, from);
        assert forall|i: int| 0 <= i < e - from implies is_digit(
            #[trigger] l.subrange(from, e)[i],
        ) by {
            if i > 0 {
                assert(l.subrange(from + 1, e)[i - 1] == l.subrange(from, e)[i]);
            }
        }
    }
}

/// The attachment run stops before the first line when that line is not an
/// attachment link.
proof fn lemma_att_run_bound(ls: Seq<Seq<char>>, upto: int)
    requires
        0 <= upto <= ls.len(),
        ls.len() > 0,
        !is_att_line(ls[0]),
    ensures
        att_run(ls, upto) <= upto,
        upto > 0 ==> att_run(ls, upto) <= upto - 1,
    decreases upto,
{
    if upto > 0 && is_att_line(ls[upto - 1]) {
        lemma_att_run_bound(ls, upto - 1);
    }
}


/// Views of an optional allowed-names list.
pub open spec fn allowed_views(a: Option<&Vec<Vec<char>>>) -> Option<Seq<Seq<char>>> {
    match a {
        Some(v) => Some(line_views(v@)),
        None => None,
    }
}

/// First space at or after `from`, or the length.
pub open spec fn space_pos(l: Seq<char>, from: int) -> int
    decreases l.len() - from,
{
    if from < l.len() && l[from] != ' ' {
        space_pos(l, from + 1)
    } else {
        from
    }
}

/// First space at or after `from`, or the length.
fn take_to_space(l: &Vec<char>, from: usize) -> (end: usize)
    requires
        from <= l@.len(),
    ensures
        end == space_pos(l@, from as int),
        from <= end <= l@.len(),
{
    let mut i: usize = from;
    while i < l.len() && l[i] != ' '
        invariant
            from <= i <= l@.len(),
            space_pos(l@, from as int) == space_pos(l@, i as int),
        decreases l@.len() - i,
    {
        i = i + 1;
    }
    i
}

/// Month number of an English month name, or zero for anything else.
pub open spec fn month_num(m: Seq<char>) -> int {
    if m == "January"@ {
        1
    } else if m == "February"@ {
        2
    } else if m == "March"@ {
        3
    } else if m == "April"@ {
        4
    } else if m == "May"@ {
        5
    } else if m == "June"@ {
        6
    } else if m == "July"@ {
        7
    } else if m == "August"@ {
        8
    } else if m == "September"@ {
        9
    } else if m == "October"@ {
        10
    } else if m == "November"@ {
        11
    } else if m == "December"@ {
        12
    } else {
        0
    }
}

/// Month number of an English month name, or zero.
fn month_num_exec(m: &Vec<char>) -> (r: u32)
    ensures
        r == month_num(m@),
{
    if chars_eq_lit(m, "January") {
        1
    } else if chars_eq_lit(m, "February") {
        2
    } else if chars_eq_lit(m, "March") {
        3
    } else if chars_eq_lit(m, "April") {
        4
    } else if chars_eq_lit(m, "May") {
        5
    } else if chars_eq_lit(m, "June") {
        6
    } else if chars_eq_lit(m, "July") {
        7
    } else if chars_eq_lit(m, "August") {
        8
    } else if chars_eq_lit(m, "September") {
        9
    } else if chars_eq_lit(m, "October") {
        10
    } else if chars_eq_lit(m, "November") {
        11
    } else if chars_eq_lit(m, "December") {
        12
    } else {
        0
    }
}

/// Day-of-month text: unsigned digits in 32-bit range.
pub open spec fn spec_day_val(s: Seq<char>) -> Option<int> {
    if s.len() > 0 && all_digits(s) && digits_val(s) <= u32::MAX {
        Some(digits_val(s))
    } else {
        None
    }
}

/// Year text: an optional leading minus sign and digits, in 32-bit range.
pub open spec fn spec_year_val(s: Seq<char>) -> Option<int> {
    if s.len() > 0 && s[0] == '-' {
        let d = s.drop_first();
        if d.len() > 0 && all_digits(d) && digits_val(d) <= 0x8000_0000 {
            Some(-digits_val(d))
        } else {
            None
        }
    } else if s.len() > 0 && all_digits(s) && digits_val(s) <= 0x7fff_ffff {
        Some(digits_val(s))
    } else {
        None
    }
}

/// The date a header line carries: "---- D Month YYYY ----" with a known
/// month name and a valid calendar date; anything else is no header.
pub open spec fn spec_header_date(l: Seq<char>) -> Option<Date> {
    let open_mark = "---- "@;
    let close_mark = " ----"@;
    if l.len() >= 10 && l.subrange(0, 5) == open_mark && l.subrange(l.len() - 5, l.len() as int)
        == close_mark {
        let inner = l.subrange(5, l.len() - 5);
        let sp1 = space_pos(inner, 0);
        if sp1 == inner.len() {
            None
        } else {
            let day_txt = inner.subrange(0, sp1);
            let rest = inner.subrange(sp1 + 1, inner.len() as int);
            let sp2 = space_pos(rest, 0);
            if sp2 == rest.len() {
                None
            } else {
                let month_txt = rest.subrange(0, sp2);
                let year_txt = rest.subrange(sp2 + 1, rest.len() as int);
                let mn = month_num(month_txt);
                if mn == 0 {
                    None
                } else {
                    match (spec_day_val(day_txt), spec_year_val(year_txt)) {
                        (Some(day), Some(year)) => {
                            let d = Date { year: year as i64, month: mn as u32, day: day as u32 };
                            if d.wf() {
                                Some(d)
                            } else {
                                None
                            }
                        },
                        _ => None,
                    }
                }
            }
        }
    } else {
        None
    }
}

/// Parses a date header line.
pub fn header_date(l: &Vec<char>) -> (r: Option<Date>)
    ensures
        r == spec_header_date(l@),
        r matches Some(d) ==> d.wf(),
{
    if l.len() < 10 {
        return None;
    }
    if !starts_with_lit(l, "---- ") {
        return None;
    }
    if !ends_with_lit(l, " ----") {
        return None;
    }
    proof {
        reveal_strlit("---- ");
        reveal_strlit(" ----");
    }
    let inner: Vec<char> = sub_chars(l, 5, l.len() - 5);
    let sp1: usize = take_to_space(&inner, 0);
    if sp1 == inner.len() {
        return None;
    }
    let day_txt: Vec<char> = sub_chars(&inner, 0, sp1);
    let rest: Vec<char> = sub_chars(&inner, sp1 + 1, inner.len());
    let sp2: usize = take_to_space(&rest, 0);
    if sp2 == rest.len() {
        return None;
    }
    let month_txt: Vec<char> = sub_chars(&rest, 0, sp2);
    let year_txt: Vec<char> = sub_chars(&rest, sp2 + 1, rest.len());
    let mn: u32 = month_num_exec(&month_txt);
    if mn == 0 {
        return None;
    }
    let day: u32 = match crate::ids::parse_u64(&day_txt) {
        Some(v) => {
            if v <= 0xffff_ffff {
                v as u32
            } else {
                return None;
            }
        },
        None => {
            return None;
        },
    };
    let year: i64 = if year_txt.len() > 0 && year_txt[0] == '-' {
        let digits: Vec<char> = sub_chars(&year_txt, 1, year_txt.len());
        proof {
            assert(digits@ =~= year_txt@.drop_first());
        }
        match crate::ids::parse_u64(&digits) {
            Some(v) => {
                if v <= 0x8000_0000 {
                    -(v as i64)
                } else {
                    return None;
                }
            },
            None => {
                return None;
            },
        }
    } else {
        match crate::ids::parse_u64(&year_txt) {
            Some(v) => {
                if v <= 0x7fff_ffff {
                    v as i64
                } else {
                    return None;
                }
            },
            None => {
                return None;
            },
        }
    };
    Date::from_ymd(year, mn, day)
}

/// The scanner state between lines: the current day, the accumulated block,
/// and the candidates already produced.
pub ghost struct ScanState {
    pub date: Option<Date>,
    pub acc: Seq<Seq<char>>,
    pub out: Seq<TempView>,
}

/// Flushing the accumulated block: when a day is set and the block parses,
/// its candidate is appended; a block that fails to parse is skipped, never
/// fatal.
pub open spec fn spec_flush(st: ScanState, allowed: Option<Seq<Seq<char>>>) -> Seq<TempView> {
    match st.date {
        Some(d) => match spec_parse_temp(st.acc, d, allowed) {
            Some(tv) => st.out.push(tv),
            None => st.out,
        },
        None => st.out,
    }
}

/// An ordinary text line: when a day is set, the line alone would start a
/// new message, and a block is pending, the block is flushed first; the
/// line then joins the accumulator.
pub open spec fn spec_step_text(
    st: ScanState,
    line: Seq<char>,
    allowed: Option<Seq<Seq<char>>>,
) -> ScanState {
    let flush_first = st.date matches Some(d) && st.acc.len() > 0 && spec_parse_temp(
        seq![line],
        d,
        allowed,
    ) is Some;
    if flush_first {
        ScanState { date: st.date, acc: seq![line], out: spec_flush(st, allowed) }
    } else {
        ScanState { date: st.date, acc: st.acc.push(line), out: st.out }
    }
}

/// One line of the scan: a header that keeps the days monotone flushes the
/// pending block and starts a new day; every other line is message text.  A
/// header whose date runs backwards is message text: quoted headers must
/// not travel in time.
pub open spec fn spec_step(st: ScanState, line: Seq<char>, allowed: Option<Seq<Seq<char>>>)
    -> ScanState {
    match spec_header_date(line) {
        Some(nd) => {
            let retro = st.date matches Some(od) && nd.spec_lt(od);
            if retro {
                spec_step_text(st, line, allowed)
            } else {
                ScanState { date: Some(nd), acc: Seq::empty(), out: spec_flush(st, allowed) }
            }
        },
        None => spec_step_text(st, line, allowed),
    }
}

/// Folding the scan over the lines.
pub open spec fn spec_scan(
    lines: Seq<Seq<char>>,
    st: ScanState,
    allowed: Option<Seq<Seq<char>>>,
) -> ScanState
    decreases lines.len(),
{
    if lines.len() == 0 {
        st
    } else {
        spec_scan(lines.drop_first(), spec_step(st, lines[0], allowed), allowed)
    }
}

/// What a whole log parses to: the scan from an empty state, with the last
/// pending block flushed at the end.
pub open spec fn spec_parse_log(lines: Seq<Seq<char>>, allowed: Option<Seq<Seq<char>>>)
    -> Seq<TempView> {
    let st0 = ScanState { date: None, acc: Seq::empty(), out: Seq::empty() };
    spec_flush(spec_scan(lines, st0, allowed), allowed)
}

/// Every day the scanner can hold is a valid calendar date.
pub open spec fn scan_date_wf(st: ScanState) -> bool {
    st.date matches Some(d) ==> d.wf()
}

/// Copies a block of lines.
fn clone_lines(v: &Vec<Vec<char>>) -> (r: Vec<Vec<char>>)
    ensures
        line_views(r@) == line_views(v@),
{
    let mut out: Vec<Vec<char>> = Vec::new();
    let mut i: usize = 0;
    while i < v.len()
        invariant
            0 <= i <= v@.len(),
            out@.len() == i,
            forall|k: int| 0 <= k < i ==> (#[trigger] out@[k])@ == v@[k]@,
        decreases v@.len() - i,
    {
        let line: Vec<char> = sub_chars(&v[i], 0, v[i].len());
        proof {
            assert(line@ =~= v@[i as int]@);
        }
        out.push(line);
        i = i + 1;
    }
    proof {
        assert(line_views(out@) =~= line_views(v@));
    }
    out
}

/// Parses a whole historical log, line by line, as `spec_parse_log` lays it
/// out: date headers set the day, message blocks become candidates, and
/// malformed blocks are skipped rather than failing the run.
pub fn parse_with_headers(lines: &Vec<Vec<char>>, allowed: Option<&Vec<Vec<char>>>) -> (r: Vec<
    TempMessage,
>)
    ensures
        temp_views(r@) == spec_parse_log(line_views(lines@), allowed_views(allowed)),
{
    let ghost lsv = line_views(lines@);
    let ghost av = allowed_views(allowed);
    let ghost st0 = ScanState { date: None, acc: Seq::empty(), out: Seq::empty() };
    let mut date: Option<Date> = None;
    let mut acc: Vec<Vec<char>> = Vec::new();
    let mut out: Vec<TempMessage> = Vec::new();
    let mut i: usize = 0;
    proof {
        assert(line_views(acc@) =~= Seq::<Seq<char>>::empty());
        assert(temp_views(out@) =~= Seq::<TempView>::empty());
        assert(lsv.subrange(0, lsv.len() as int) =~= lsv);
    }
    while i < lines.len()
        invariant
            0 <= i <= lines@.len(),
            lsv == line_views(lines@),
            av == allowed_views(allowed),
            lsv.len() == lines@.len(),
            scan_date_wf(ScanState { date, acc: line_views(acc@), out: temp_views(out@) }),
            spec_scan(
                lsv.subrange(i as int, lsv.len() as int),
                ScanState { date, acc: line_views(acc@), out: temp_views(out@) },
                av,
            ) == spec_scan(lsv, st0, av),
        decreases lines@.len() - i,
    {
        let ghost st_cur = ScanState { date, acc: line_views(acc@), out: temp_views(out@) };
        let line: &Vec<char> = &lines[i];
        proof {
            assert(lsv[i as int] == line@);
            assert(lsv.subrange(i as int, lsv.len() as int).drop_first() =~= lsv.subrange(
                i + 1,
                lsv.len() as int,
            ));
            assert(lsv.subrange(i as int, lsv.len() as int)[0] == line@);
        }
        let hd: Option<Date> = header_date(line);
        let retro: bool = match (&hd, &date) {
            (Some(nd), Some(od)) => nd.lt(od),
            _ => false,
        };
        match hd {
            Some(nd) if !retro => {
                match &date {
                    Some(d) => {
                        if acc.len() > 0 {
                            match parse_temp_message(&acc, d, allowed) {
                                Some(t) => {
                                    let ghost tv = t@;
                                    out.push(t);
                                    proof {
                                        assert(temp_views(out@) =~= st_cur.out.push(tv));
                                    }
                                },
                                None => {},
                            }
                        } else {
                            proof {
                                assert(spec_parse_temp(line_views(acc@), *d, av) is None);
                            }
                        }
                    },
                    None => {},
                }
                acc = Vec::new();
                date = Some(nd);
                proof {
                    assert(line_views(acc@) =~= Seq::<Seq<char>>::empty());
                    assert(temp_views(out@) =~= spec_flush(st_cur, av));
                }
            },
            _ => {
                let flush_first: bool = match &date {
                    Some(d) => {
                        if acc.len() > 0 {
                            let mut single: Vec<Vec<char>> = Vec::new();
                            let one: Vec<char> = sub_chars(line, 0, line.len());
                            proof {
                                assert(one@ =~= line@);
                            }
                            single.push(one);
                            proof {
                                assert(line_views(single@) =~= seq![line@]);
                            }
                            match parse_temp_message(&single, d, allowed) {
                                Some(_) => true,
                                None => false,
                            }
                        } else {
                            false
                        }
                    },
                    None => false,
                };
                if flush_first {
                    match &date {
                        Some(d) => {
                            match parse_temp_message(&acc, d, allowed) {
                                Some(t) => {
                                    let ghost tv = t@;
                                    out.push(t);
                                    proof {
                                        assert(temp_views(out@) =~= st_cur.out.push(tv));
                                    }
                                },
                                None => {},
                            }
                        },
                        None => {
                            proof {
                                assert(false);
                            }
                        },
                    }
                    acc = Vec::new();
                    let one: Vec<char> = sub_chars(line, 0, line.len());
                    proof {
                        assert(one@ =~= line@);
                    }
                    acc.push(one);
                    proof {
                        assert(line_views(acc@) =~= seq![line@]);
                        assert(temp_views(out@) =~= spec_flush(st_cur, av));
                    }
                } else {
                    let one: Vec<char> = sub_chars(line, 0, line.len());
                    proof {
                        assert(one@ =~= line@);
                    }
                    acc.push(one);
                    proof {
                        assert(line_views(acc@) =~= st_cur.acc.push(line@));
                    }
                }
            },
        }
        i = i + 1;
    }
    match &date {
        Some(d) => {
            match parse_temp_message(&acc, d, allowed) {
                Some(t) => {
                    let ghost st_end = spec_scan(lsv, st0, av);
                    let ghost tv = t@;
                    out.push(t);
                    proof {
                        assert(temp_views(out@) =~= st_end.out.push(tv));
                    }
                },
                None => {},
            }
        },
        None => {},
    }
    proof {
        assert(lsv.subrange(lsv.len() as int, lsv.len() as int) =~= Seq::<Seq<char>>::empty());
    }
    out
}

} // verus!
