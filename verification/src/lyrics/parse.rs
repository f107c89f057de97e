//! The lyric formats: LRC (`[mm:ss.xx]text`), QRC and YRC (per-character
//! timing groups, milliseconds), and translation documents.

use vstd::prelude::*;

use super::{lines_view, words_view, LineModel, LyricLine, LyricWord, WordModel};
use crate::numbers::{decimal_units, decimal_units_exec};
use crate::sort::sort_by;
use crate::text::{
    chars_of, concat, find, find_char, find_char_from, find_from, find_sub, find_sub_exec, first_piece,
    first_piece_exec, is_blank, lemma_find_from_bounds, rfind, rfind_char, rows_view, split_lines,
    starts_with, text_lines,
    string_of, trim, trim_exec, trim_start, trim_start_exec,
};

verus! {

/// Lines come out in time order, equal times in the order they were read.
pub open spec fn line_order() -> spec_fn(LineModel, LineModel) -> bool {
    |a: LineModel, b: LineModel| a.at <= b.at
}

// ---------------------------------------------------------------------------
// LRC.

pub open spec fn colon_to_dot(s: Seq<char>) -> Seq<char> {
    s.map_values(|c: char| if c == ':' { '.' } else { c })
}

/// `[minutes:seconds]`: trimmed minutes and the seconds (with any further
/// `:` read as `.`), both decimals, added up in milliseconds.
pub open spec fn parse_stamp_spec(stamp: Seq<char>) -> Option<i64> {
    match find(stamp, ':') {
        Some(p) => match (
            decimal_units(trim(stamp.subrange(0, p)), 3),
            decimal_units(colon_to_dot(stamp.subrange(p + 1, stamp.len() as int)), 3),
        ) {
            (Some(m), Some(s)) => {
                let total = m * 60 + s;
                if i64::MIN <= total <= i64::MAX {
                    Some(total as i64)
                } else {
                    None
                }
            },
            _ => None,
        },
        None => None,
    }
}

pub fn parse_stamp(stamp: &[char]) -> (r: Option<i64>)
    ensures
        r == parse_stamp_spec(stamp@),
{
    let p = match find_char(stamp, ':') {
        Some(p) => p,
        None => return None,
    };
    proof {
        lemma_find_from_bounds(stamp@, ':', 0);
    }
    assert(find_from(stamp@, ':', 0) == Some(p as int));
    assert(p < stamp@.len());
    let minutes = trim_exec(&stamp[0..p]);
    let mut seconds: Vec<char> = Vec::new();
    let mut k: usize = p + 1;
    while k < stamp.len()
        invariant
            p < k <= stamp.len(),
            seconds@ == colon_to_dot(stamp@.subrange(p + 1, k as int)),
        decreases stamp.len() - k,
    {
        let c = stamp[k];
        seconds.push(if c == ':' {
            '.'
        } else {
            c
        });
        k = k + 1;
        assert(seconds@ =~= colon_to_dot(stamp@.subrange(p + 1, k as int)));
    }
    let m = match decimal_units_exec(minutes.as_slice(), 3) {
        Some(m) => m,
        None => return None,
    };
    let s = match decimal_units_exec(seconds.as_slice(), 3) {
        Some(s) => s,
        None => return None,
    };
    let total = m as i128 * 60 + s as i128;
    if -0x8000_0000_0000_0000 <= total && total <= 0x7fff_ffff_ffff_ffff {
        Some(total as i64)
    } else {
        None
    }
}

proof fn lemma_find_first_colon(m: Seq<char>, s: Seq<char>)
    requires
        forall|i: int| 0 <= i < m.len() ==> m[i] != ':',
    ensures
        find(m + seq![':'] + s, ':') == Some(m.len() as int),
{
    let t = m + seq![':'] + s;
    lemma_find_from_bounds(t, ':', 0);
    assert(t[m.len() as int] == ':');
    match find(t, ':') {
        Some(k) => {
            if k < m.len() {
                assert(t[k] == m[k]);
            }
        },
        None => {},
    }
}

/// A stamp `M:S` is M minutes and S seconds: whatever decimals the two
/// parts are (M trimmed, no further `:` in either), the time is sixty times
/// the minutes plus the seconds, both in milliseconds.
pub proof fn lemma_stamp_is_minutes_and_seconds(m: Seq<char>, s: Seq<char>, x: i64, y: i64)
    requires
        forall|i: int| 0 <= i < m.len() ==> m[i] != ':',
        forall|i: int| 0 <= i < s.len() ==> s[i] != ':',
    ensures
        decimal_units(trim(m), 3) == Some(x) && decimal_units(s, 3) == Some(y) && i64::MIN <= 60 * x
            + y <= i64::MAX ==> parse_stamp_spec(m + seq![':'] + s) == Some(
            (60 * x + y) as i64,
        ),
        decimal_units(trim(m), 3) is None || decimal_units(s, 3) is None ==> parse_stamp_spec(
            m + seq![':'] + s,
        ) is None,
{
    let t = m + seq![':'] + s;
    lemma_find_first_colon(m, s);
    assert(t.subrange(0, m.len() as int) =~= m);
    assert(t.subrange(m.len() as int + 1, t.len() as int) =~= s);
    assert(colon_to_dot(s) =~= s);
}

proof fn lemma_trim_digits(w: Seq<char>)
    requires
        w.len() > 0,
        crate::numbers::all_digits(w),
    ensures
        trim(w) == w,
{
    assert(crate::numbers::is_digit(w[0]));
    assert(crate::numbers::is_digit(w[w.len() - 1]));
    assert(crate::text::skip_ws(w, 0) == 0);
    assert(w.subrange(0, w.len() as int) =~= w);
    assert(crate::text::back_ws(w, w.len() as int) == w.len());
}

/// A stamp written in whole minutes and whole seconds, `MM:SS`, is
/// `60 000 × MM + 1 000 × SS` milliseconds: `01:00` is one minute.
pub proof fn lemma_stamp_of_digits(m: Seq<char>, s: Seq<char>)
    requires
        m.len() > 0,
        s.len() > 0,
        crate::numbers::all_digits(m),
        crate::numbers::all_digits(s),
        crate::numbers::digits_value(m) < 1_000_000_000,
        crate::numbers::digits_value(s) < 1_000_000_000,
    ensures
        parse_stamp_spec(m + seq![':'] + s) == Some(
            (60_000 * crate::numbers::digits_value(m) + 1000 * crate::numbers::digits_value(s)) as i64,
        ),
{
    reveal_with_fuel(crate::numbers::pow10, 4);
    assert(crate::numbers::pow10(3) == 1000);
    lemma_trim_digits(m);
    crate::numbers::lemma_whole_units(m, 3);
    crate::numbers::lemma_whole_units(s, 3);
    assert forall|i: int| 0 <= i < m.len() implies m[i] != ':' by {
        assert(crate::numbers::is_digit(m[i]));
    }
    assert forall|i: int| 0 <= i < s.len() implies s[i] != ':' by {
        assert(crate::numbers::is_digit(s[i]));
    }
    let x = (crate::numbers::digits_value(m) * 1000) as i64;
    let y = (crate::numbers::digits_value(s) * 1000) as i64;
    lemma_stamp_is_minutes_and_seconds(m, s, x, y);
}

/// The usual LRC stamp `MM:SS.CC` (minutes, seconds, hundredths) is
/// `60 000 × MM + 1 000 × SS + 10 × CC` milliseconds: `01:02.50` is 62 500.
pub proof fn lemma_lrc_stamp(m: Seq<char>, s: Seq<char>, c: Seq<char>)
    requires
        m.len() > 0,
        s.len() > 0,
        c.len() == 2,
        crate::numbers::all_digits(m),
        crate::numbers::all_digits(s),
        crate::numbers::all_digits(c),
        crate::numbers::digits_value(m) < 1_000_000_000,
        crate::numbers::digits_value(s) < 1_000_000_000,
    ensures
        parse_stamp_spec(m + seq![':'] + s + seq!['.'] + c) == Some(
            (60_000 * crate::numbers::digits_value(m) + 1000 * crate::numbers::digits_value(s) + 10
                * crate::numbers::digits_value(c)) as i64,
        ),
{
    reveal_with_fuel(crate::numbers::pow10, 4);
    lemma_trim_digits(m);
    crate::numbers::lemma_whole_units(m, 3);
    crate::numbers::lemma_hundredths_units(s, c);
    let sec = s + seq!['.'] + c;
    assert(m + seq![':'] + s + seq!['.'] + c =~= m + seq![':'] + sec);
    assert forall|i: int| 0 <= i < m.len() implies m[i] != ':' by {
        assert(crate::numbers::is_digit(m[i]));
    }
    assert forall|i: int| 0 <= i < sec.len() implies sec[i] != ':' by {
        if i < s.len() {
            assert(sec[i] == s[i] && crate::numbers::is_digit(s[i]));
        } else if i > s.len() {
            assert(sec[i] == c[i - s.len() - 1] && crate::numbers::is_digit(c[i - s.len() - 1]));
        }
    }
    let x = (crate::numbers::digits_value(m) * 1000) as i64;
    let y = (crate::numbers::digits_value(s) * 1000 + 10 * crate::numbers::digits_value(c)) as i64;
    lemma_stamp_is_minutes_and_seconds(m, sec, x, y);
}

/// Reads the leading `[...]` groups of a row: the timestamps among them, and
/// the text after the last group.
pub open spec fn lrc_scan(rest: Seq<char>, stamps: Seq<i64>) -> (Seq<i64>, Seq<char>)
    decreases rest.len(),
{
    if rest.len() > 0 && rest[0] == '[' {
        match find(rest.drop_first(), ']') {
            Some(close) => {
                proof {
                    lemma_find_from_bounds(rest.drop_first(), ']', 0);
                }
                let next = match parse_stamp_spec(rest.subrange(1, close + 1)) {
                    Some(at) => stamps.push(at),
                    None => stamps,
                };
                lrc_scan(rest.subrange(close + 2, rest.len() as int), next)
            },
            None => (stamps, rest),
        }
    } else {
        (stamps, rest)
    }
}

pub open spec fn plain_line(at: i64, text: Seq<char>) -> LineModel {
    LineModel { at, text, translation: None, words: Seq::empty() }
}

/// One line per timestamp of the row, all with the row's trimmed text; none
/// when that text is empty.
pub open spec fn lrc_row(row: Seq<char>) -> Seq<LineModel> {
    let (stamps, rest) = lrc_scan(row, Seq::empty());
    let text = trim(rest);
    if text.len() == 0 {
        Seq::empty()
    } else {
        stamps.map_values(|at: i64| plain_line(at, text))
    }
}

pub open spec fn lrc_rows(rows: Seq<Seq<char>>) -> Seq<LineModel>
    decreases rows.len(),
{
    if rows.len() == 0 {
        Seq::empty()
    } else {
        lrc_rows(rows.drop_last()) + lrc_row(rows.last())
    }
}

/// `[mm:ss.xx]text`, with repeated stamps for shared lines, in time order.
pub open spec fn parse_lrc_spec(raw: Seq<char>) -> Seq<LineModel> {
    sort_by(lrc_rows(text_lines(raw)), line_order())
}

fn lrc_row_exec(row: &[char]) -> (r: Vec<LyricLine>)
    ensures
        lines_view(r@) == lrc_row(row@),
{
    let mut start: usize = 0;
    let mut stamps: Vec<i64> = Vec::new();
    assert(stamps@ =~= Seq::<i64>::empty());
    assert(row@.subrange(0, row@.len() as int) =~= row@);
    while start < row.len() && row[start] == '['
        invariant
            start <= row.len(),
            lrc_scan(row@, Seq::empty()) == lrc_scan(
                row@.subrange(start as int, row@.len() as int),
                stamps@,
            ),
        ensures
            start <= row.len(),
            lrc_scan(row@, Seq::empty()) == (stamps@, row@.subrange(start as int, row@.len() as int)),
        decreases row.len() - start,
    {
        let rest = &row[start + 1..row.len()];
        let ghost cur = row@.subrange(start as int, row@.len() as int);
        assert(rest@ =~= cur.drop_first());
        proof {
            lemma_find_from_bounds(rest@, ']', 0);
        }
        match find_char(rest, ']') {
            Some(close) => {
                let stamp = &row[start + 1..start + 1 + close];
                assert(stamp@ =~= cur.subrange(1, close + 1));
                match parse_stamp(stamp) {
                    Some(at) => stamps.push(at),
                    None => {},
                }
                assert(row@.subrange(start + close + 2, row@.len() as int) =~= cur.subrange(
                    close + 2,
                    cur.len() as int,
                ));
                start = start + close + 2;
            },
            None => {
                break;
            },
        }
    }
    let text = trim_exec(&row[start..row.len()]);
    let mut out: Vec<LyricLine> = Vec::new();
    if text.len() == 0 {
        assert(lines_view(out@) =~= Seq::<LineModel>::empty());
        return out;
    }
    let mut k: usize = 0;
    while k < stamps.len()
        invariant
            k <= stamps.len(),
            text@.len() > 0,
            lines_view(out@) =~= stamps@.take(k as int).map_values(
                |at: i64| plain_line(at, text@),
            ),
        decreases stamps.len() - k,
    {
        let line = LyricLine {
            at: stamps[k],
            text: string_of(text.as_slice()),
            translation: None,
            words: Vec::new(),
        };
        assert(line@.words =~= Seq::<WordModel>::empty());
        out.push(line);
        k = k + 1;
        assert(stamps@.take(k as int).map_values(|at: i64| plain_line(at, text@)) =~= stamps@.take(
            k - 1,
        ).map_values(|at: i64| plain_line(at, text@)).push(plain_line(stamps@[k - 1], text@)));
        assert(lines_view(out@) =~= stamps@.take(k as int).map_values(
            |at: i64| plain_line(at, text@),
        ));
    }
    assert(stamps@.take(stamps.len() as int) =~= stamps@);
    out
}

pub fn parse_lrc_chars(raw: &[char]) -> (r: Vec<LyricLine>)
    ensures
        lines_view(r@) == parse_lrc_spec(raw@),
{
    let rows = split_lines(raw);
    let ghost rv = rows_view(rows@);
    let mut out: Vec<LyricLine> = Vec::new();
    let mut i: usize = 0;
    while i < rows.len()
        invariant
            i <= rows.len(),
            rv == rows_view(rows@),
            lines_view(out@) == lrc_rows(rv.take(i as int)),
        decreases rows.len() - i,
    {
        let mut more = lrc_row_exec(rows[i].as_slice());
        let ghost before = out@;
        let ghost add = more@;
        out.append(&mut more);
        assert(rv.take(i + 1).drop_last() =~= rv.take(i as int));
        assert(rv[i as int] == rows@[i as int]@);
        assert(lines_view(out@) =~= lines_view(before) + lines_view(add));
        i = i + 1;
    }
    assert(rv.take(rows.len() as int) =~= rv);
    super::sort_lines(out)
}

pub fn parse_lrc(raw: &str) -> (r: Vec<LyricLine>)
    ensures
        lines_view(r@) == parse_lrc_spec(raw@),
{
    parse_lrc_chars(chars_of(raw).as_slice())
}

// ---------------------------------------------------------------------------
// Timing groups.

/// `(start,duration[,...])` in milliseconds: the first two comma-separated
/// values, each trimmed; both must be numbers.
pub open spec fn group_timing(t: Seq<char>) -> Option<(i64, i64)> {
    match find(t, ',') {
        Some(c) => match (
            decimal_units(trim(t.subrange(0, c)), 0),
            decimal_units(trim(first_piece(t.subrange(c + 1, t.len() as int), seq![','])), 0),
        ) {
            (Some(a), Some(d)) => Some((a, d)),
            _ => None,
        },
        None => None,
    }
}

fn group_timing_exec(t: &[char]) -> (r: Option<(i64, i64)>)
    ensures
        r == group_timing(t@),
{
    let c = match find_char(t, ',') {
        Some(c) => c,
        None => return None,
    };
    proof {
        lemma_find_from_bounds(t@, ',', 0);
    }
    let comma = [','];
    assert(comma@ =~= seq![',']);
    let first = trim_exec(&t[0..c]);
    let second = trim_exec(first_piece_exec(&t[c + 1..t.len()], &comma).as_slice());
    match (decimal_units_exec(first.as_slice(), 0), decimal_units_exec(second.as_slice(), 0)) {
        (Some(a), Some(d)) => Some((a, d)),
        _ => None,
    }
}

/// The group that opens at `i` (a `(`): its inner text and where scanning
/// resumes, just after the closing `)` or at the end.
pub open spec fn group_at(body: Seq<char>, i: int) -> (Seq<char>, int) {
    match find_from(body, ')', i + 1) {
        Some(c) => (body.subrange(i + 1, c), c + 1),
        None => (body.subrange(i + 1, body.len() as int), body.len() as int),
    }
}

pub proof fn lemma_group_at(body: Seq<char>, i: int)
    requires
        0 <= i < body.len(),
    ensures
        i < group_at(body, i).1 <= body.len(),
{
    lemma_find_from_bounds(body, ')', i + 1);
}

fn group_at_exec(body: &[char], i: usize) -> (r: (Vec<char>, usize))
    requires
        i < body.len(),
    ensures
        r.0@ == group_at(body@, i as int).0,
        r.1 == group_at(body@, i as int).1,
        i < r.1 <= body.len(),
{
    proof {
        lemma_group_at(body@, i as int);
        lemma_find_from_bounds(body@, ')', i + 1);
    }
    match find_char_from(body, ')', i + 1) {
        Some(c) => (vstd::slice::slice_to_vec(&body[i + 1..c]), c + 1),
        None => (vstd::slice::slice_to_vec(&body[i + 1..body.len()]), body.len()),
    }
}

pub open spec fn append_to_last(words: Seq<WordModel>, text: Seq<char>) -> Seq<WordModel> {
    if text.len() > 0 && words.len() > 0 {
        words.update(
            words.len() - 1,
            WordModel { text: words.last().text + text, ..words.last() },
        )
    } else {
        words
    }
}

/// QRC order: characters, then the timing group that closes them. A bracket
/// group that is not a timing stays in the text, brackets included; trailing
/// text joins the last word.
pub open spec fn qrc_words_from(
    body: Seq<char>,
    i: int,
    words: Seq<WordModel>,
    text: Seq<char>,
) -> Seq<WordModel>
    decreases body.len() - i,
{
    if i < 0 || i >= body.len() {
        append_to_last(words, text)
    } else if body[i] != '(' {
        qrc_words_from(body, i + 1, words, text.push(body[i]))
    } else {
        proof {
            lemma_group_at(body, i);
        }
        let (timing, next) = group_at(body, i);
        match group_timing(timing) {
            Some((at, duration)) => qrc_words_from(
                body,
                next,
                words.push(WordModel { at, duration, text }),
                Seq::empty(),
            ),
            None => qrc_words_from(body, next, words, text + seq!['('] + timing + seq![')']),
        }
    }
}

pub open spec fn qrc_words(body: Seq<char>) -> Seq<WordModel> {
    qrc_words_from(body, 0, Seq::empty(), Seq::empty())
}

fn make_word(at: i64, duration: i64, text: &[char]) -> (r: LyricWord)
    ensures
        r@ == (WordModel { at, duration, text: text@ }),
{
    LyricWord { at, duration, text: string_of(text) }
}

pub fn parse_qrc_words(body: &[char]) -> (r: Vec<LyricWord>)
    ensures
        words_view(r@) == qrc_words(body@),
{
    let mut words: Vec<LyricWord> = Vec::new();
    let mut text: Vec<char> = Vec::new();
    assert(words_view(words@) =~= Seq::<WordModel>::empty());
    assert(text@ =~= Seq::<char>::empty());
    let mut i: usize = 0;
    while i < body.len()
        invariant
            i <= body.len(),
            qrc_words(body@) == qrc_words_from(body@, i as int, words_view(words@), text@),
        decreases body.len() - i,
    {
        if body[i] != '(' {
            text.push(body[i]);
            i = i + 1;
        } else {
            let (timing, next) = group_at_exec(body, i);
            let ghost old_text = text@;
            match group_timing_exec(timing.as_slice()) {
                Some((at, duration)) => {
                    let ghost before = words@;
                    let w = make_word(at, duration, text.as_slice());
                    words.push(w);
                    assert(words_view(words@) =~= words_view(before).push(w@));
                    text = Vec::new();
                    assert(text@ =~= Seq::<char>::empty());
                },
                None => {
                    text.push('(');
                    crate::text::append_chars(&mut text, timing.as_slice());
                    text.push(')');
                    assert(text@ =~= old_text + seq!['('] + timing@ + seq![')']);
                },
            }
            i = next;
        }
    }
    if text.len() > 0 && words.len() > 0 {
        let ghost before = words@;
        let last = words.pop().unwrap();
        let joined = concat(chars_of(last.text.as_str()).as_slice(), text.as_slice());
        let w = make_word(last.at, last.duration, joined.as_slice());
        words.push(w);
        assert(words_view(words@) =~= append_to_last(words_view(before), text@));
    }
    words
}

/// YRC order: each timing group before its characters. Text between a
/// group that is not a timing and the next `(` is skipped; groups with no
/// characters give no word.
pub open spec fn yrc_groups_from(body: Seq<char>, i: int, words: Seq<WordModel>) -> Seq<WordModel>
    decreases body.len() - i,
{
    if i < 0 || i >= body.len() {
        words
    } else if body[i] != '(' {
        yrc_groups_from(body, i + 1, words)
    } else {
        proof {
            lemma_group_at(body, i);
        }
        let (timing, next) = group_at(body, i);
        match group_timing(timing) {
            Some((at, duration)) => {
                let end = match find_from(body, '(', next) {
                    Some(e) => e,
                    None => body.len() as int,
                };
                proof {
                    lemma_find_from_bounds(body, '(', next);
                }
                let text = body.subrange(next, end);
                yrc_groups_from(
                    body,
                    end,
                    if text.len() > 0 {
                        words.push(WordModel { at, duration, text })
                    } else {
                        words
                    },
                )
            },
            None => yrc_groups_from(body, next, words),
        }
    }
}

/// NetEase serves both layouts: groups before their characters when the body
/// starts with `(`, QRC order otherwise.
pub open spec fn yrc_words(body: Seq<char>) -> Seq<WordModel> {
    if starts_with(trim_start(body), seq!['(']) {
        yrc_groups_from(body, 0, Seq::empty())
    } else {
        qrc_words(body)
    }
}

pub fn parse_yrc_words(body: &[char]) -> (r: Vec<LyricWord>)
    ensures
        words_view(r@) == yrc_words(body@),
{
    let open = ['('];
    assert(open@ =~= seq!['(']);
    if !crate::text::starts_with_exec(trim_start_exec(body).as_slice(), &open) {
        return parse_qrc_words(body);
    }
    let mut words: Vec<LyricWord> = Vec::new();
    assert(words_view(words@) =~= Seq::<WordModel>::empty());
    let mut i: usize = 0;
    while i < body.len()
        invariant
            i <= body.len(),
            yrc_groups_from(body@, 0, Seq::empty()) == yrc_groups_from(
                body@,
                i as int,
                words_view(words@),
            ),
        decreases body.len() - i,
    {
        if body[i] != '(' {
            i = i + 1;
        } else {
            let (timing, next) = group_at_exec(body, i);
            match group_timing_exec(timing.as_slice()) {
                Some((at, duration)) => {
                    proof {
                        lemma_find_from_bounds(body@, '(', next as int);
                    }
                    let end = match find_char_from(body, '(', next) {
                        Some(e) => e,
                        None => body.len(),
                    };
                    if end > next {
                        let ghost before = words@;
                        let w = make_word(at, duration, &body[next..end]);
                        words.push(w);
                        assert(words_view(words@) =~= words_view(before).push(w@));
                    }
                    i = end;
                },
                None => {
                    i = next;
                },
            }
        }
    }
    words
}

/// The text of a line: its words' texts, in order.
pub open spec fn words_text(ws: Seq<WordModel>) -> Seq<char>
    decreases ws.len(),
{
    if ws.len() == 0 {
        Seq::empty()
    } else {
        words_text(ws.drop_last()) + ws.last().text
    }
}

fn words_text_exec(ws: &[LyricWord]) -> (r: Vec<char>)
    ensures
        r@ == words_text(words_view(ws@)),
{
    let ghost wv = words_view(ws@);
    let mut out: Vec<char> = Vec::new();
    let mut i: usize = 0;
    while i < ws.len()
        invariant
            i <= ws.len(),
            wv == words_view(ws@),
            out@ == words_text(wv.take(i as int)),
        decreases ws.len() - i,
    {
        crate::text::append_chars(&mut out, chars_of(ws[i].text.as_str()).as_slice());
        assert(wv.take(i + 1).drop_last() =~= wv.take(i as int));
        assert(wv[i as int] == ws@[i as int]@);
        i = i + 1;
    }
    assert(wv.take(ws.len() as int) =~= wv);
    out
}

// ---------------------------------------------------------------------------
// QRC, YRC and translation rows.

/// `[start,duration]body`: the start (milliseconds, trimmed) and the body.
pub open spec fn row_head(row: Seq<char>) -> Option<(i64, Seq<char>)> {
    if row.len() > 0 && row[0] == '[' {
        let rest = row.drop_first();
        match find(rest, ']') {
            Some(p) => {
                let head = rest.subrange(0, p);
                match find(head, ',') {
                    Some(q) => match decimal_units(trim(head.subrange(0, q)), 0) {
                        Some(start) => Some((start, rest.subrange(p + 1, rest.len() as int))),
                        None => None,
                    },
                    None => None,
                }
            },
            None => None,
        }
    } else {
        None
    }
}

fn row_head_exec(row: &[char]) -> (r: Option<(i64, Vec<char>)>)
    ensures
        match r {
            Some((start, body)) => row_head(row@) == Some((start, body@)),
            None => row_head(row@) is None,
        },
{
    if row.len() == 0 || row[0] != '[' {
        return None;
    }
    let rest = &row[1..row.len()];
    assert(rest@ =~= row@.drop_first());
    proof {
        lemma_find_from_bounds(rest@, ']', 0);
    }
    let p = match find_char(rest, ']') {
        Some(p) => p,
        None => return None,
    };
    let head = &rest[0..p];
    proof {
        lemma_find_from_bounds(head@, ',', 0);
    }
    let q = match find_char(head, ',') {
        Some(q) => q,
        None => return None,
    };
    assert(head@.subrange(0, q as int) =~= rest@.subrange(0, p as int).subrange(0, q as int));
    match decimal_units_exec(trim_exec(&head[0..q]).as_slice(), 0) {
        Some(start) => Some((start, vstd::slice::slice_to_vec(&rest[p + 1..rest.len()]))),
        None => None,
    }
}

pub open spec fn qrc_row(row: Seq<char>) -> Option<LineModel> {
    match row_head(row) {
        Some((start, body)) => {
            let words = qrc_words(body);
            let text = words_text(words);
            if trim(text).len() == 0 {
                None
            } else {
                Some(LineModel { at: start, text, translation: None, words })
            }
        },
        None => None,
    }
}

pub open spec fn yrc_row(row: Seq<char>) -> Option<LineModel> {
    match row_head(row) {
        Some((start, body)) => {
            let words = yrc_words(body);
            let text = words_text(words);
            if trim(text).len() == 0 {
                None
            } else {
                Some(
                    LineModel {
                        at: if words.len() > 0 {
                            words[0].at
                        } else {
                            start
                        },
                        text,
                        translation: None,
                        words,
                    },
                )
            }
        },
        None => None,
    }
}

/// A translation row keeps literal parentheses: timing groups go only when
/// they hold numbers, and a body with no timing group is kept whole, trimmed.
pub open spec fn translation_row(row: Seq<char>) -> Option<LineModel> {
    match row_head(row) {
        Some((start, body)) => {
            let words = qrc_words(body);
            let text = if words.len() == 0 {
                trim(body)
            } else {
                words_text(words)
            };
            if trim(text).len() == 0 {
                None
            } else {
                Some(plain_line(start, text))
            }
        },
        None => None,
    }
}

/// The kinds of rows with a `[start,duration]` head.
pub enum RowKind {
    Qrc,
    Yrc,
    Translation,
}

pub open spec fn row_line(kind: RowKind, row: Seq<char>) -> Option<LineModel> {
    match kind {
        RowKind::Qrc => qrc_row(row),
        RowKind::Yrc => yrc_row(row),
        RowKind::Translation => translation_row(row),
    }
}

fn row_line_exec(kind: &RowKind, row: &[char]) -> (r: Option<LyricLine>)
    ensures
        match r {
            Some(l) => row_line(*kind, row@) == Some(l@),
            None => row_line(*kind, row@) is None,
        },
{
    let (start, body) = match row_head_exec(row) {
        Some(h) => h,
        None => return None,
    };
    match kind {
        RowKind::Qrc => {
            let words = parse_qrc_words(body.as_slice());
            let text = words_text_exec(words.as_slice());
            if is_blank(text.as_slice()) {
                None
            } else {
                Some(LyricLine { at: start, text: string_of(text.as_slice()), translation: None, words })
            }
        },
        RowKind::Yrc => {
            let words = parse_yrc_words(body.as_slice());
            let text = words_text_exec(words.as_slice());
            if is_blank(text.as_slice()) {
                None
            } else {
                let at = if words.len() > 0 {
                    words[0].at
                } else {
                    start
                };
                assert(words.len() > 0 ==> words_view(words@)[0] == words@[0]@);
                Some(LyricLine { at, text: string_of(text.as_slice()), translation: None, words })
            }
        },
        RowKind::Translation => {
            let words = parse_qrc_words(body.as_slice());
            let text = if words.len() == 0 {
                trim_exec(body.as_slice())
            } else {
                words_text_exec(words.as_slice())
            };
            if is_blank(text.as_slice()) {
                None
            } else {
                let line = LyricLine {
                    at: start,
                    text: string_of(text.as_slice()),
                    translation: None,
                    words: Vec::new(),
                };
                assert(line@.words =~= Seq::<WordModel>::empty());
                Some(line)
            }
        },
    }
}

/// The lines of the rows that parse, in row order.
pub open spec fn collect_rows(rows: Seq<Seq<char>>, kind: RowKind) -> Seq<LineModel>
    decreases rows.len(),
{
    if rows.len() == 0 {
        Seq::empty()
    } else {
        collect_rows(rows.drop_last(), kind) + match row_line(kind, rows.last()) {
            Some(l) => seq![l],
            None => Seq::empty(),
        }
    }
}

fn collect_rows_exec(text: &[char], kind: RowKind) -> (r: Vec<LyricLine>)
    ensures
        lines_view(r@) == collect_rows(text_lines(text@), kind),
{
    let rows = split_lines(text);
    let ghost rv = rows_view(rows@);
    let mut out: Vec<LyricLine> = Vec::new();
    let mut i: usize = 0;
    while i < rows.len()
        invariant
            i <= rows.len(),
            rv == rows_view(rows@),
            lines_view(out@) == collect_rows(rv.take(i as int), kind),
        decreases rows.len() - i,
    {
        assert(rv.take(i + 1).drop_last() =~= rv.take(i as int));
        assert(rv[i as int] == rows@[i as int]@);
        let ghost before = out@;
        match row_line_exec(&kind, rows[i].as_slice()) {
            Some(line) => {
                out.push(line);
                assert(lines_view(out@) =~= lines_view(before) + seq![line@]);
            },
            None => {
                assert(lines_view(out@) =~= lines_view(before) + Seq::<LineModel>::empty());
            },
        }
        i = i + 1;
    }
    assert(rv.take(rows.len() as int) =~= rv);
    out
}

// ---------------------------------------------------------------------------
// Documents.

/// The `LyricContent` attribute of a QRC document: after the first
/// `LyricContent="`, up to the last `"`.
pub open spec fn qrc_content_spec(doc: Seq<char>) -> Option<Seq<char>> {
    match find_sub(doc, "LyricContent=\""@) {
        Some(i) => {
            let rest = doc.subrange(i + "LyricContent=\""@.len(), doc.len() as int);
            match rfind(rest, '"') {
                Some(end) => Some(rest.subrange(0, end)),
                None => None,
            }
        },
        None => None,
    }
}

pub fn qrc_content(doc: &[char]) -> (r: Option<Vec<char>>)
    ensures
        match r {
            Some(c) => qrc_content_spec(doc@) == Some(c@),
            None => qrc_content_spec(doc@) is None,
        },
{
    let marker = chars_of("LyricContent=\"");
    let i = match find_sub_exec(doc, marker.as_slice()) {
        Some(i) => i,
        None => return None,
    };
    proof {
        crate::text::lemma_find_sub_from_some(doc@, marker@, 0);
    }
    let rest = &doc[i + marker.len()..doc.len()];
    proof {
        crate::text::lemma_rfind_before_bounds(rest@, '"', rest@.len() as int);
    }
    match rfind_char(rest, '"') {
        Some(end) => Some(vstd::slice::slice_to_vec(&rest[0..end])),
        None => None,
    }
}

pub open spec fn content_or_empty(doc: Seq<char>) -> Seq<char> {
    match qrc_content_spec(doc) {
        Some(c) => c,
        None => Seq::empty(),
    }
}

/// `[start,duration]字(start,duration)字(start,duration)…`, in time order.
pub open spec fn parse_qrc_spec(doc: Seq<char>) -> Seq<LineModel> {
    sort_by(collect_rows(text_lines(content_or_empty(doc)), RowKind::Qrc), line_order())
}

pub fn parse_qrc(document: &str) -> (r: Vec<LyricLine>)
    ensures
        lines_view(r@) == parse_qrc_spec(document@),
{
    let content = match qrc_content(chars_of(document).as_slice()) {
        Some(c) => c,
        None => Vec::new(),
    };
    assert(content@ == content_or_empty(document@));
    super::sort_lines(collect_rows_exec(content.as_slice(), RowKind::Qrc))
}

/// NetEase's YRC: QRC timing data without the XML wrapper, in time order.
pub open spec fn parse_yrc_spec(raw: Seq<char>) -> Seq<LineModel> {
    sort_by(collect_rows(text_lines(raw), RowKind::Yrc), line_order())
}

pub fn parse_yrc(raw: &str) -> (r: Vec<LyricLine>)
    ensures
        lines_view(r@) == parse_yrc_spec(raw@),
{
    super::sort_lines(collect_rows_exec(chars_of(raw).as_slice(), RowKind::Yrc))
}

/// A translation document: QRC rows when there are any (in time order),
/// else the same content read as LRC.
pub open spec fn parse_translation_spec(doc: Seq<char>) -> Seq<LineModel> {
    let content = match qrc_content_spec(doc) {
        Some(c) => c,
        None => doc,
    };
    let rows = collect_rows(text_lines(content), RowKind::Translation);
    if rows.len() == 0 {
        parse_lrc_spec(content)
    } else {
        sort_by(rows, line_order())
    }
}

pub fn parse_translation(document: &str) -> (r: Vec<LyricLine>)
    ensures
        lines_view(r@) == parse_translation_spec(document@),
{
    let doc = chars_of(document);
    let content = match qrc_content(doc.as_slice()) {
        Some(c) => c,
        None => doc,
    };
    let lines = collect_rows_exec(content.as_slice(), RowKind::Translation);
    if lines.len() == 0 {
        parse_lrc_chars(content.as_slice())
    } else {
        super::sort_lines(lines)
    }
}

// ---------------------------------------------------------------------------
// Time order.

/// Each line starts no later than the lines after it.
pub open spec fn in_time_order(lines: Seq<LineModel>) -> bool {
    forall|i: int, j: int| 0 <= i < j < lines.len() ==> #[trigger] lines[i].at <= #[trigger] lines[j].at
}

proof fn lemma_sorted_in_time_order(rows: Seq<LineModel>)
    ensures
        in_time_order(sort_by(rows, line_order())),
{
    let before = line_order();
    assert(crate::sort::total_preorder(before));
    crate::sort::lemma_sort_by_sorted(rows, before);
    let out = sort_by(rows, before);
    assert forall|i: int, j: int| 0 <= i < j < out.len() implies out[i].at <= out[j].at by {
        assert(before(out[i], out[j]));
    }
}

/// Whatever text they are given, the LRC, QRC, YRC and translation readers
/// hand their lines back in time order.
pub proof fn lemma_parsed_in_time_order(text: Seq<char>)
    ensures
        in_time_order(parse_lrc_spec(text)),
        in_time_order(parse_qrc_spec(text)),
        in_time_order(parse_yrc_spec(text)),
        in_time_order(parse_translation_spec(text)),
{
    lemma_sorted_in_time_order(lrc_rows(text_lines(text)));
    lemma_sorted_in_time_order(collect_rows(text_lines(content_or_empty(text)), RowKind::Qrc));
    lemma_sorted_in_time_order(collect_rows(text_lines(text), RowKind::Yrc));
    let content = match qrc_content_spec(text) {
        Some(c) => c,
        None => text,
    };
    lemma_sorted_in_time_order(collect_rows(text_lines(content), RowKind::Translation));
    lemma_sorted_in_time_order(lrc_rows(text_lines(content)));
}

} // verus!
