//! Reading exit statuses, working directories and command output out of
//! what the backend shell prints around its markers.
use vstd::prelude::*;
use crate::text::{
    byte_offset, has_infix, has_suffix, contains, chars_string, first_from, has_prefix, is_ascii_digit, occurs_at, occurs_at_exec,
    prefix_byte_len, push_chars, push_str_chars, starts_with, str_chars, sub_chars, text_lines,
    lines_of, trim, trim_chars, trim_end, trim_end_chars, trim_start, trim_start_chars,
};
use crate::picker::{escape_single_quotes, push_escaped_single_quotes};
use crate::pty::filter::{
    lead_in, lead_in_exec, strip_ctl, trim_start_in, strip_terminal_control_sequences, trail_in, trail_in_exec,
};
use crate::pty::filter::{clean_fish_repaint_lines, fish_cleaned};
use crate::pty::protocol::{ready_marker, ready_text, start_marker, start_text};

verus! {

broadcast use vstd::string::group_string_axioms;

// ---------------------------------------------------------------------
// Line endings
// ---------------------------------------------------------------------

/// What the character at `i` becomes when line endings are normalized: a
/// `\r` before `\n` goes, any other `\r` becomes `\n`.
pub open spec fn newline_piece(s: Seq<char>, i: int) -> Seq<char> {
    if s[i] == '\r' {
        if i + 1 < s.len() && s[i + 1] == '\n' {
            seq![]
        } else {
            seq!['\n']
        }
    } else {
        seq![s[i]]
    }
}

/// The normalized text of the first `i` characters of `s`.
pub open spec fn normalized_upto(s: Seq<char>, i: int) -> Seq<char>
    decreases i,
{
    if i <= 0 {
        seq![]
    } else {
        normalized_upto(s, i - 1) + newline_piece(s, i - 1)
    }
}

/// `s` with every `\r\n` written as `\n` and every other `\r` as `\n`.
pub open spec fn normalized(s: Seq<char>) -> Seq<char> {
    normalized_upto(s, s.len() as int)
}

proof fn lemma_normalized_upto_no_cr(s: Seq<char>, i: int)
    requires
        0 <= i <= s.len(),
    ensures
        !normalized_upto(s, i).contains('\r'),
    decreases i,
{
    if i > 0 {
        lemma_normalized_upto_no_cr(s, i - 1);
        let a = normalized_upto(s, i - 1);
        let b = newline_piece(s, i - 1);
        assert(!b.contains('\r'));
        assert forall|k: int| 0 <= k < (a + b).len() implies (a + b)[k] != '\r' by {
            if k < a.len() {
                assert((a + b)[k] == a[k]);
            } else {
                assert((a + b)[k] == b[k - a.len()]);
            }
        }
    }
}

proof fn lemma_normalized_upto_plain(t: Seq<char>, i: int)
    requires
        0 <= i <= t.len(),
        !t.contains('\r'),
    ensures
        normalized_upto(t, i) == t.take(i),
    decreases i,
{
    if i > 0 {
        lemma_normalized_upto_plain(t, i - 1);
        assert(t[i - 1] != '\r');
        assert(t.take(i) =~= t.take(i - 1) + seq![t[i - 1]]);
    }
}

/// Normalizing line endings twice changes nothing more: the result holds
/// no `\r`, and text without `\r` comes back unchanged.
pub proof fn normalize_newlines_idempotent(s: Seq<char>)
    ensures
        !normalized(s).contains('\r'),
        normalized(normalized(s)) == normalized(s),
{
    lemma_normalized_upto_no_cr(s, s.len() as int);
    lemma_normalized_upto_plain(normalized(s), normalized(s).len() as int);
    assert(normalized(s).take(normalized(s).len() as int) =~= normalized(s));
}

pub fn normalize_chars(v: &[char]) -> (r: Vec<char>)
    ensures
        r@ == normalized(v@),
{
    let mut out: Vec<char> = Vec::new();
    let mut i: usize = 0;
    while i < v.len()
        invariant
            i <= v.len(),
            out@ == normalized_upto(v@, i as int),
        decreases v.len() - i,
    {
        let c = v[i];
        if c == '\r' {
            if i + 1 < v.len() && v[i + 1] == '\n' {
            } else {
                out.push('\n');
            }
        } else {
            out.push(c);
        }
        i = i + 1;
        assert(out@ =~= normalized_upto(v@, i as int));
    }
    out
}

/// Writes the line endings of `text` as `\n`: `\r\n` and a lone `\r` alike.
pub fn normalize_pty_newlines(text: &str) -> (r: String)
    ensures
        r@ == normalized(text@),
{
    let v = str_chars(text);
    let n = normalize_chars(v.as_slice());
    crate::text::chars_string(n.as_slice())
}

/// The lines of `s` that a line ending closes; a final line still being
/// written is left out.
pub open spec fn complete_lines(s: Seq<char>) -> Seq<Seq<char>> {
    let l = text_lines(s);
    if s.len() > 0 && s.last() == '\n' {
        l
    } else if l.len() > 0 {
        l.drop_last()
    } else {
        l
    }
}

pub fn complete_lines_of(v: &[char]) -> (r: Vec<Vec<char>>)
    ensures
        r@.map_values(|l: Vec<char>| l@) == complete_lines(v@),
{
    let mut lines = lines_of(v);
    let ends = v.len() > 0 && v[v.len() - 1] == '\n';
    if !ends && lines.len() > 0 {
        let ghost before = lines@.map_values(|l: Vec<char>| l@);
        lines.pop();
        assert(lines@.map_values(|l: Vec<char>| l@) =~= before.drop_last());
    }
    lines
}

/// The lines of `normalized` that a `\n` closes, as strings.
pub fn complete_normalized_lines(normalized: &str) -> (r: Vec<String>)
    ensures
        r@.map_values(|l: String| l@) == complete_lines(normalized@),
{
    let v = str_chars(normalized);
    let lines = complete_lines_of(v.as_slice());
    let mut out: Vec<String> = Vec::new();
    let mut i: usize = 0;
    while i < lines.len()
        invariant
            i <= lines@.len(),
            out@.len() == i,
            forall|k: int| 0 <= k < i ==> #[trigger] out@[k]@ == lines@[k]@,
        decreases lines.len() - i,
    {
        out.push(crate::text::chars_string(lines[i].as_slice()));
        i = i + 1;
    }
    assert(out@.map_values(|l: String| l@) =~= lines@.map_values(|l: Vec<char>| l@));
    out
}

// ---------------------------------------------------------------------
// Integers as `i32::from_str` reads them
// ---------------------------------------------------------------------

pub open spec fn all_digits(s: Seq<char>) -> bool {
    forall|i: int| 0 <= i < s.len() ==> is_ascii_digit(#[trigger] s[i])
}

/// The value of a run of decimal digits.
pub open spec fn digits_value(s: Seq<char>) -> int
    decreases s.len(),
{
    if s.len() == 0 {
        0
    } else {
        digits_value(s.drop_last()) * 10 + (s.last() as int - '0' as int)
    }
}

/// The integer that `s` writes: an optional `+` or `-`, then one or more
/// decimal digits, nothing else.
pub open spec fn int_value(s: Seq<char>) -> Option<int> {
    if s.len() > 0 && (s[0] == '+' || s[0] == '-') {
        let d = s.skip(1);
        if d.len() > 0 && all_digits(d) {
            Some(
                if s[0] == '-' {
                    -digits_value(d)
                } else {
                    digits_value(d)
                },
            )
        } else {
            None
        }
    } else if s.len() > 0 && all_digits(s) {
        Some(digits_value(s))
    } else {
        None
    }
}

/// What `i32::from_str` gives for `s`: the integer it writes, when that
/// fits in an `i32`.
pub open spec fn i32_value(s: Seq<char>) -> Option<i32> {
    match int_value(s) {
        Some(v) => if i32::MIN <= v && v <= i32::MAX {
            Some(v as i32)
        } else {
            None
        },
        None => None,
    }
}

pub proof fn lemma_digits_value_prefix(s: Seq<char>, k: int)
    requires
        0 <= k <= s.len(),
        all_digits(s),
    ensures
        0 <= digits_value(s.take(k)) <= digits_value(s),
    decreases s.len() - k,
{
    if k < s.len() {
        lemma_digits_value_prefix(s, k + 1);
        assert(s.take(k + 1).drop_last() =~= s.take(k));
        assert(is_ascii_digit(s[k]));
    } else {
        assert(s.take(k) =~= s);
        lemma_digits_value_nonneg(s);
    }
}

pub proof fn lemma_digits_value_nonneg(s: Seq<char>)
    requires
        all_digits(s),
    ensures
        digits_value(s) >= 0,
    decreases s.len(),
{
    if s.len() > 0 {
        assert(all_digits(s.drop_last()));
        assert(is_ascii_digit(s.last()));
        lemma_digits_value_nonneg(s.drop_last());
    }
}

/// Reads an `i32` as `str::parse::<i32>` does.
pub fn parse_i32_chars(v: &[char]) -> (r: Option<i32>)
    ensures
        r == i32_value(v@),
{
    if v.len() == 0 {
        return None;
    }
    let signed = v[0] == '+' || v[0] == '-';
    let neg = v[0] == '-';
    let start: usize = if signed { 1 } else { 0 };
    let ghost d = v@.skip(start as int);
    proof {
        if !signed {
            assert(d =~= v@);
        }
    }
    if start >= v.len() {
        assert(d.len() == 0);
        return None;
    }
    let mut acc: i64 = 0;
    let mut i: usize = start;
    assert(d.take(0) =~= Seq::<char>::empty());
    while i < v.len()
        invariant
            start <= i <= v.len(),
            start < v.len(),
            signed == (v@[0] == '+' || v@[0] == '-'),
            neg == (v@[0] == '-'),
            start == (if signed { 1usize } else { 0usize }),
            !signed ==> d == v@,
            d == v@.skip(start as int),
            acc == digits_value(d.take(i - start)),
            0 <= acc <= 2147483648,
            all_digits(d.take(i - start)),
        decreases v.len() - i,
    {
        let c = v[i];
        assert(d[i - start] == c);
        if !('0' <= c && c <= '9') {
            assert(!is_ascii_digit(d[i - start]));
            assert(!all_digits(d));
            return None;
        }
        let dig = (c as u32 - '0' as u32) as i64;
        let next = acc * 10 + dig;
        let ghost k = i - start;
        assert(d.take(k + 1).drop_last() =~= d.take(k));
        assert(d.take(k + 1).last() == c);
        assert(digits_value(d.take(k + 1)) == next);
        assert(all_digits(d.take(k + 1)));
        if next > 2147483648 {
            proof {
                if all_digits(d) {
                    lemma_digits_value_prefix(d, k + 1);
                }
            }
            return None;
        }
        acc = next;
        i = i + 1;
    }
    assert(d.take(i - start) =~= d);
    assert(d.len() > 0 && all_digits(d));
    if neg {
        Some((0 - acc) as i32)
    } else if acc <= 2147483647 {
        Some(acc as i32)
    } else {
        None
    }
}

// ---------------------------------------------------------------------
// The status marker
// ---------------------------------------------------------------------

pub open spec fn is_line_break(c: char) -> bool {
    c == '\n' || c == '\r'
}

/// The occurrence of `p` at `m` is followed by a digit, and a line break
/// comes after that digit.
pub open spec fn status_complete_at(s: Seq<char>, p: Seq<char>, m: int) -> bool {
    let st = m + p.len();
    &&& 0 <= st < s.len()
    &&& is_ascii_digit(s[st])
    &&& exists|j: int| st < j < s.len() && is_line_break(#[trigger] s[j])
}

/// How far the search for the next occurrence moves on: past the match,
/// or one character for an empty pattern.
pub open spec fn match_step(p: Seq<char>) -> int {
    if p.len() == 0 {
        1
    } else {
        p.len() as int
    }
}

/// Among the occurrences of `p` that a left-to-right, non-overlapping
/// search finds from `i` on, the first with a complete status.
pub open spec fn complete_marker_from(s: Seq<char>, p: Seq<char>, i: int) -> Option<int>
    decreases s.len() + 1 - i,
{
    match first_from(s, p, i) {
        None => None,
        Some(m) => if status_complete_at(s, p, m) {
            Some(m)
        } else if i <= m && m + match_step(p) <= s.len() + 1 {
            complete_marker_from(s, p, m + match_step(p))
        } else {
            None
        },
    }
}

pub proof fn lemma_first_from_found(s: Seq<char>, p: Seq<char>, i: int)
    requires
        first_from(s, p, i) is Some,
    ensures
        i <= first_from(s, p, i)->0,
        occurs_at(s, p, first_from(s, p, i)->0),
        first_from(s, p, i)->0 + p.len() <= s.len(),
    decreases s.len() + 1 - i,
{
    if !(i < 0 || i + p.len() > s.len()) && !occurs_at(s, p, i) {
        lemma_first_from_found(s, p, i + 1);
    }
}

pub proof fn lemma_complete_marker_found(s: Seq<char>, p: Seq<char>, i: int)
    requires
        complete_marker_from(s, p, i) is Some,
    ensures
        status_complete_at(s, p, complete_marker_from(s, p, i)->0),
    decreases s.len() + 1 - i,
{
    let m = first_from(s, p, i)->0;
    if !status_complete_at(s, p, m) {
        lemma_complete_marker_found(s, p, m + match_step(p));
    }
}

/// First occurrence of `p` in `v` at or after `i`.
pub fn find_from(v: &[char], p: &[char], i: usize) -> (r: Option<usize>)
    ensures
        match r {
            Some(m) => first_from(v@, p@, i as int) == Some(m as int),
            None => first_from(v@, p@, i as int) is None,
        },
{
    if p.len() > v.len() || i > v.len() - p.len() {
        return None;
    }
    let last = v.len() - p.len();
    let mut j: usize = i;
    loop
        invariant
            i <= j <= last,
            last == v.len() - p.len(),
            p.len() <= v.len(),
            first_from(v@, p@, i as int) == first_from(v@, p@, j as int),
        decreases last - j,
    {
        if occurs_at_exec(v, p, j) {
            return Some(j);
        }
        if j == last {
            assert(first_from(v@, p@, j + 1) is None);
            return None;
        }
        j = j + 1;
    }
}

fn status_complete_exec(v: &[char], p: &[char], m: usize) -> (r: bool)
    requires
        m + p.len() <= v.len(),
    ensures
        r == status_complete_at(v@, p@, m as int),
{
    let st = m + p.len();
    if st >= v.len() {
        return false;
    }
    let c = v[st];
    if !('0' <= c && c <= '9') {
        return false;
    }
    let mut j = st + 1;
    while j < v.len()
        invariant
            st < j <= v.len(),
            st == m + p.len(),
            is_ascii_digit(v@[st as int]),
            forall|k: int| st < k < j ==> !is_line_break(#[trigger] v@[k]),
        decreases v.len() - j,
    {
        if v[j] == '\n' || v[j] == '\r' {
            assert(is_line_break(v@[j as int]));
            assert(exists|k: int| st < k < v@.len() && is_line_break(#[trigger] v@[k]));
            return true;
        }
        j = j + 1;
    }
    false
}

/// Character index of the first status marker in `v` whose status is complete.
pub fn find_complete_marker_chars(v: &[char], p: &[char]) -> (r: Option<usize>)
    ensures
        match r {
            Some(m) => complete_marker_from(v@, p@, 0) == Some(m as int),
            None => complete_marker_from(v@, p@, 0) is None,
        },
{
    let mut i: usize = 0;
    loop
        invariant
            i <= v.len() + 1,
            complete_marker_from(v@, p@, 0) == complete_marker_from(v@, p@, i as int),
        decreases v.len() + 1 - i,
    {
        match find_from(v, p, i) {
            None => {
                return None;
            },
            Some(m) => {
                proof {
                    lemma_first_from_found(v@, p@, i as int);
                }
                if status_complete_exec(v, p, m) {
                    return Some(m);
                }
                if m >= v.len() {
                    assert(first_from(v@, p@, m + match_step(p@)) is None);
                    assert(complete_marker_from(v@, p@, m + match_step(p@)) is None);
                    return None;
                }
                let step: usize = if p.len() == 0 { 1 } else { p.len() };
                i = m + step;
            },
        }
    }
}

/// Byte offset of the first status marker in `raw` that is followed by a
/// digit and, later, a line break.
pub fn find_complete_marker(raw: &str, marker: &str) -> (r: Option<usize>)
    ensures
        match complete_marker_from(raw@, marker@, 0) {
            Some(m) => r == Some(byte_offset(raw@, m) as usize),
            None => r is None,
        },
{
    let v = str_chars(raw);
    let p = str_chars(marker);
    match find_complete_marker_chars(v.as_slice(), p.as_slice()) {
        Some(m) => {
            proof {
                lemma_complete_marker_found(v@, p@, 0);
            }
            Some(prefix_byte_len(v.as_slice(), m))
        },
        None => None,
    }
}

/// Whether `raw` holds `marker` with its complete status.
pub fn marker_status_is_complete(raw: &str, marker: &str) -> (r: bool)
    ensures
        r == (complete_marker_from(raw@, marker@, 0) is Some),
{
    let v = str_chars(raw);
    let p = str_chars(marker);
    find_complete_marker_chars(v.as_slice(), p.as_slice()).is_some()
}

// ---------------------------------------------------------------------
// The start marker
// ---------------------------------------------------------------------

/// A command as the start marker shows it: on one line, each line break
/// written as the two characters `\n`.
pub open spec fn one_line(s: Seq<char>) -> Seq<char>
    decreases s.len(),
{
    if s.len() == 0 {
        seq![]
    } else {
        one_line(s.drop_last()) + if s.last() == '\r' || s.last() == '\n' {
            seq!['\\', 'n']
        } else {
            seq![s.last()]
        }
    }
}

/// `s` without the `\n` characters at its end.
pub open spec fn without_trailing_newlines(s: Seq<char>) -> Seq<char> {
    s.take(s.len() - trail_in(s, seq!['\n']))
}

/// The command that makes the shell print the start marker with `command`.
pub open spec fn start_marker_text(command: Seq<char>) -> Seq<char> {
    " printf '\n"@ + start_text() + "\t%s\n' '"@ + escape_single_quotes(
        one_line(without_trailing_newlines(command)),
    ) + "'\n"@
}

fn one_line_chars(v: &[char]) -> (r: Vec<char>)
    ensures
        r@ == one_line(v@),
{
    let mut out: Vec<char> = Vec::new();
    let mut i: usize = 0;
    assert(v@.take(0) =~= Seq::<char>::empty());
    while i < v.len()
        invariant
            i <= v.len(),
            out@ == one_line(v@.take(i as int)),
        decreases v.len() - i,
    {
        assert(v@.take(i + 1).drop_last() =~= v@.take(i as int));
        let c = v[i];
        if c == '\r' || c == '\n' {
            out.push('\\');
            out.push('n');
        } else {
            out.push(c);
        }
        i = i + 1;
        assert(out@ =~= one_line(v@.take(i as int)));
    }
    assert(v@.take(v.len() as int) =~= v@);
    out
}

/// A command that prints the start marker, a tab and `command` on one
/// line, with `command` quoted for the shell.
pub fn start_marker_command(command: &str) -> (r: String)
    ensures
        r@ == start_marker_text(command@),
{
    let v = str_chars(command);
    let mut nl: Vec<char> = Vec::new();
    nl.push('\n');
    assert(nl@ =~= seq!['\n']);
    let t = trail_in_exec(v.as_slice(), nl.as_slice());
    let kept = sub_chars(v.as_slice(), 0, v.len() - t);
    let display = one_line_chars(kept.as_slice());
    let mut out = String::new();
    push_str_chars(&mut out, " printf '\n");
    push_str_chars(&mut out, start_marker());
    push_str_chars(&mut out, "\t%s\n' '");
    push_escaped_single_quotes(&mut out, display.as_slice());
    push_str_chars(&mut out, "'\n");
    out
}

// ---------------------------------------------------------------------
// The ready marker
// ---------------------------------------------------------------------

/// The fields after the ready marker and its tab: either an exit status, a
/// tab and the working directory, or the working directory alone, which
/// must then not read as a status.
pub open spec fn ready_fields(rest: Seq<char>) -> Option<(Option<i32>, Seq<char>)> {
    match first_from(rest, seq!['\t'], 0) {
        Some(k) => {
            let status = trim(strip_ctl(rest.take(k)));
            let cwd = trim_end(strip_ctl(rest.skip(k + 1)));
            match i32_value(status) {
                Some(code) => if cwd.len() > 0 {
                    Some((Some(code), cwd))
                } else {
                    None
                },
                None => None,
            }
        },
        None => {
            let cwd = trim_end(strip_ctl(rest));
            if cwd.len() > 0 && i32_value(cwd) is None {
                Some((None, cwd))
            } else {
                None
            }
        },
    }
}

/// The ready marker followed by a tab.
pub open spec fn ready_prefix() -> Seq<char> {
    ready_text().push('\t')
}

/// The start marker followed by a tab.
pub open spec fn start_prefix() -> Seq<char> {
    start_text().push('\t')
}

/// A line as the marker checks see it: control sequences removed, then
/// leading whitespace.
pub open spec fn marker_view(line: Seq<char>) -> Seq<char> {
    trim_start(strip_ctl(line))
}

/// The fields of `line` when it is a ready-marker line.
pub open spec fn ready_line_fields(line: Seq<char>) -> Option<(Option<i32>, Seq<char>)> {
    let m = marker_view(line);
    if has_prefix(m, ready_prefix()) {
        ready_fields(m.skip(ready_prefix().len() as int))
    } else {
        None
    }
}

/// The working directory of the first ready-marker line among `lines`.
pub open spec fn first_ready_cwd(lines: Seq<Seq<char>>) -> Option<Seq<char>>
    decreases lines.len(),
{
    if lines.len() == 0 {
        None
    } else {
        match ready_line_fields(lines[0]) {
            Some(f) => Some(f.1),
            None => first_ready_cwd(lines.drop_first()),
        }
    }
}

fn strip_chars(v: &[char]) -> (r: Vec<char>)
    ensures
        r@ == strip_ctl(v@),
{
    let s = chars_string(v);
    let t = strip_terminal_control_sequences(s.as_str());
    str_chars(t.as_str())
}

fn ready_fields_of(rest: &[char]) -> (r: Option<(Option<i32>, Vec<char>)>)
    ensures
        match ready_fields(rest@) {
            Some(f) => r matches Some(g) && g.0 == f.0 && g.1@ == f.1,
            None => r is None,
        },
{
    let mut tab: Vec<char> = Vec::new();
    tab.push('\t');
    assert(tab@ =~= seq!['\t']);
    match find_from(rest, tab.as_slice(), 0) {
        Some(k) => {
            proof {
                lemma_first_from_found(rest@, tab@, 0);
            }
            let first = sub_chars(rest, 0, k);
            let second = sub_chars(rest, k + 1, rest.len());
            assert(first@ =~= rest@.take(k as int));
            assert(second@ =~= rest@.skip(k + 1));
            let status = trim_chars(strip_chars(first.as_slice()).as_slice());
            let cwd = trim_end_chars(strip_chars(second.as_slice()).as_slice());
            match parse_i32_chars(status.as_slice()) {
                Some(code) => if cwd.len() > 0 {
                    Some((Some(code), cwd))
                } else {
                    None
                },
                None => None,
            }
        },
        None => {
            let cwd = trim_end_chars(strip_chars(rest).as_slice());
            if cwd.len() > 0 && parse_i32_chars(cwd.as_slice()).is_none() {
                Some((None, cwd))
            } else {
                None
            }
        },
    }
}

fn marker_prefix_chars(marker: &str) -> (r: Vec<char>)
    ensures
        r@ == marker@.push('\t'),
{
    let mut v = str_chars(marker);
    v.push('\t');
    v
}

fn marker_view_of(line: &[char]) -> (r: Vec<char>)
    ensures
        r@ == marker_view(line@),
{
    trim_start_chars(strip_chars(line).as_slice())
}

fn ready_line_fields_of(line: &[char], prefix: &[char]) -> (r: Option<(Option<i32>, Vec<char>)>)
    requires
        prefix@ == ready_prefix(),
    ensures
        match ready_line_fields(line@) {
            Some(f) => r matches Some(g) && g.0 == f.0 && g.1@ == f.1,
            None => r is None,
        },
{
    let m = marker_view_of(line);
    if starts_with(m.as_slice(), prefix) {
        let rest = sub_chars(m.as_slice(), prefix.len(), m.len());
        assert(rest@ =~= m@.skip(ready_prefix().len() as int));
        ready_fields_of(rest.as_slice())
    } else {
        None
    }
}

/// The working directory that the first complete ready-marker line of
/// `raw` reports.
pub fn parse_ready_cwd(raw: &str) -> (r: Option<String>)
    ensures
        match first_ready_cwd(complete_lines(normalized(raw@))) {
            Some(c) => r matches Some(s) && s@ == c,
            None => r is None,
        },
{
    let v = str_chars(raw);
    let norm = normalize_chars(v.as_slice());
    let lines = complete_lines_of(norm.as_slice());
    let ghost all = complete_lines(normalized(raw@));
    let prefix = marker_prefix_chars(ready_marker());
    let mut i: usize = 0;
    assert(all.skip(0) =~= all);
    while i < lines.len()
        invariant
            i <= lines@.len(),
            lines@.map_values(|l: Vec<char>| l@) == all,
            all == complete_lines(normalized(raw@)),
            prefix@ == ready_prefix(),
            first_ready_cwd(all) == first_ready_cwd(all.skip(i as int)),
        decreases lines.len() - i,
    {
        assert(all.len() == lines@.len());
        assert(lines@[i as int]@ == all[i as int]);
        assert(all.skip(i as int).len() > 0);
        assert(all.skip(i as int)[0] == all[i as int]);
        assert(all.skip(i as int).drop_first() =~= all.skip(i + 1));
        match ready_line_fields_of(lines[i].as_slice(), prefix.as_slice()) {
            Some(f) => {
                return Some(chars_string(f.1.as_slice()));
            },
            None => {},
        }
        i = i + 1;
    }
    None
}

// ---------------------------------------------------------------------
// Echoed marker commands
// ---------------------------------------------------------------------

/// The pieces of `s` that `str::split_inclusive('\n')` gives: each ends
/// with its `\n`, except a last piece that no `\n` closes.
pub open spec fn inclusive_pieces(s: Seq<char>) -> Seq<Seq<char>>
    decreases s.len(),
{
    if s.len() == 0 {
        seq![]
    } else {
        let p = inclusive_pieces(s.drop_last());
        if p.len() > 0 && p.last().last() != '\n' {
            p.update(p.len() - 1, p.last().push(s.last()))
        } else {
            p.push(seq![s.last()])
        }
    }
}

/// The pieces one after another.
pub open spec fn concat_all(ps: Seq<Seq<char>>) -> Seq<char>
    decreases ps.len(),
{
    if ps.len() == 0 {
        seq![]
    } else {
        concat_all(ps.drop_last()) + ps.last()
    }
}

/// A line that echoes one of the commands that print markers.
pub open spec fn marker_echo_line(text: Seq<char>, marker: Seq<char>) -> bool {
    ||| has_infix(text, ready_text())
    ||| has_infix(text, start_text())
    ||| (has_infix(text, "__aish_status=$?"@) && has_infix(text, marker))
}

/// A nonempty piece of line breaks only.
pub open spec fn separator_only(p: Seq<char>) -> bool {
    p.len() > 0 && forall|i: int| 0 <= i < p.len() ==> is_line_break(#[trigger] p[i])
}

/// The pieces that stay: an echo line goes, and takes with it a separator
/// piece right before it.
pub open spec fn echo_kept(ps: Seq<Seq<char>>, marker: Seq<char>) -> Seq<Seq<char>>
    decreases ps.len(),
{
    if ps.len() == 0 {
        seq![]
    } else {
        let prev = echo_kept(ps.drop_last(), marker);
        if marker_echo_line(without_trailing_newlines(ps.last()), marker) {
            if prev.len() > 0 && separator_only(prev.last()) {
                prev.drop_last()
            } else {
                prev
            }
        } else {
            prev.push(ps.last())
        }
    }
}

/// `output` without the lines that echo marker commands.
pub open spec fn cleaned_echo(output: Seq<char>, marker: Seq<char>) -> Seq<char> {
    concat_all(echo_kept(inclusive_pieces(output), marker))
}

fn inclusive_pieces_of(v: &[char]) -> (r: Vec<Vec<char>>)
    ensures
        r@.map_values(|p: Vec<char>| p@) == inclusive_pieces(v@),
{
    let mut done: Vec<Vec<char>> = Vec::new();
    let mut cur: Vec<char> = Vec::new();
    let mut i: usize = 0;
    assert(v@.take(0) =~= Seq::<char>::empty());
    while i < v.len()
        invariant
            i <= v.len(),
            forall|k: int| 0 <= k < cur@.len() ==> cur@[k] != '\n',
            forall|k: int| 0 <= k < done@.len() ==> (#[trigger] done@[k])@.len() > 0 && done@[k]@.last() == '\n',
            inclusive_pieces(v@.take(i as int)) == done@.map_values(|p: Vec<char>| p@) + if cur@.len() > 0 {
                seq![cur@]
            } else {
                seq![]
            },
        decreases v.len() - i,
    {
        let ghost before_done = done@.map_values(|p: Vec<char>| p@);
        let ghost before_cur = cur@;
        let c = v[i];
        assert(v@.take(i + 1).drop_last() =~= v@.take(i as int));
        assert(v@.take(i + 1).last() == c);
        cur.push(c);
        if c == '\n' {
            let piece = cur;
            cur = Vec::new();
            done.push(piece);
            assert(done@.map_values(|p: Vec<char>| p@) =~= before_done.push(before_cur.push(c)));
        }
        i = i + 1;
        proof {
            let ps = inclusive_pieces(v@.take(i - 1));
            if before_cur.len() > 0 {
                assert(ps =~= before_done + seq![before_cur]);
                assert(ps.last() == before_cur);
                assert(ps.last().last() != '\n');
                assert(inclusive_pieces(v@.take(i as int)) =~= before_done + seq![before_cur.push(c)]);
            } else {
                assert(ps =~= before_done);
                if ps.len() > 0 {
                    assert(ps.last() == before_done[before_done.len() - 1]);
                }
                assert(inclusive_pieces(v@.take(i as int)) =~= before_done + seq![seq![c]]);
                assert(seq![c] =~= before_cur.push(c));
            }
            assert(inclusive_pieces(v@.take(i as int)) =~= done@.map_values(|p: Vec<char>| p@) + if cur@.len() > 0 {
                seq![cur@]
            } else {
                seq![]
            });
        }
    }
    assert(v@.take(v.len() as int) =~= v@);
    let ghost before_done = done@.map_values(|p: Vec<char>| p@);
    if cur.len() > 0 {
        done.push(cur);
        assert(done@.map_values(|p: Vec<char>| p@) =~= before_done + seq![cur@]);
    } else {
        assert(before_done + seq![] =~= before_done);
    }
    done
}

fn is_separator_only(p: &[char]) -> (r: bool)
    ensures
        r == separator_only(p@),
{
    if p.len() == 0 {
        return false;
    }
    let mut i: usize = 0;
    while i < p.len()
        invariant
            i <= p.len(),
            forall|k: int| 0 <= k < i ==> is_line_break(#[trigger] p@[k]),
        decreases p.len() - i,
    {
        if !(p[i] == '\n' || p[i] == '\r') {
            assert(!is_line_break(p@[i as int]));
            return false;
        }
        i = i + 1;
    }
    true
}

fn is_marker_echo_line(text: &[char], marker: &[char], ready: &[char], start: &[char], status: &[char]) -> (r: bool)
    requires
        ready@ == ready_text(),
        start@ == start_text(),
        status@ == "__aish_status=$?"@,
    ensures
        r == marker_echo_line(text@, marker@),
{
    contains(text, ready) || contains(text, start) || (contains(text, status) && contains(text, marker))
}

fn without_trailing_newlines_of(v: &[char]) -> (r: Vec<char>)
    ensures
        r@ == without_trailing_newlines(v@),
{
    let mut nl: Vec<char> = Vec::new();
    nl.push('\n');
    assert(nl@ =~= seq!['\n']);
    let t = trail_in_exec(v, nl.as_slice());
    sub_chars(v, 0, v.len() - t)
}

fn concat_pieces(ps: &Vec<Vec<char>>) -> (r: Vec<char>)
    ensures
        r@ == concat_all(ps@.map_values(|p: Vec<char>| p@)),
{
    let ghost all = ps@.map_values(|p: Vec<char>| p@);
    let mut out: Vec<char> = Vec::new();
    let mut i: usize = 0;
    assert(all.take(0) =~= Seq::<Seq<char>>::empty());
    while i < ps.len()
        invariant
            i <= ps@.len(),
            all == ps@.map_values(|p: Vec<char>| p@),
            out@ == concat_all(all.take(i as int)),
        decreases ps.len() - i,
    {
        assert(all.take(i + 1).drop_last() =~= all.take(i as int));
        crate::text::extend_chars(&mut out, ps[i].as_slice());
        i = i + 1;
    }
    assert(all.take(ps@.len() as int) =~= all);
    out
}

fn clean_marker_echo_chars(v: &[char], marker: &[char]) -> (r: Vec<char>)
    ensures
        r@ == cleaned_echo(v@, marker@),
{
    let ready = str_chars(ready_marker());
    let start = str_chars(start_marker());
    let status = str_chars("__aish_status=$?");
    let pieces = inclusive_pieces_of(v);
    let ghost ps = inclusive_pieces(v@);
    let mut kept: Vec<Vec<char>> = Vec::new();
    let mut i: usize = 0;
    assert(ps.take(0) =~= Seq::<Seq<char>>::empty());
    while i < pieces.len()
        invariant
            i <= pieces@.len(),
            ps == pieces@.map_values(|p: Vec<char>| p@),
            ready@ == ready_text(),
            start@ == start_text(),
            status@ == "__aish_status=$?"@,
            kept@.map_values(|p: Vec<char>| p@) == echo_kept(ps.take(i as int), marker@),
        decreases pieces.len() - i,
    {
        assert(ps.take(i + 1).drop_last() =~= ps.take(i as int));
        assert(ps.take(i + 1).last() == pieces@[i as int]@);
        let ghost before = kept@.map_values(|p: Vec<char>| p@);
        let text = without_trailing_newlines_of(pieces[i].as_slice());
        if is_marker_echo_line(text.as_slice(), marker, ready.as_slice(), start.as_slice(), status.as_slice()) {
            if kept.len() > 0 && is_separator_only(kept[kept.len() - 1].as_slice()) {
                kept.pop();
                assert(kept@.map_values(|p: Vec<char>| p@) =~= before.drop_last());
            }
        } else {
            let piece = sub_chars(pieces[i].as_slice(), 0, pieces[i].len());
            assert(piece@ =~= pieces@[i as int]@);
            kept.push(piece);
            assert(kept@.map_values(|p: Vec<char>| p@) =~= before.push(pieces@[i as int]@));
        }
        i = i + 1;
    }
    assert(ps.take(pieces@.len() as int) =~= ps);
    concat_pieces(&kept)
}

/// `output` without the lines that echo the commands printing markers,
/// each with a line-break piece right before it.
pub fn clean_marker_echo(output: &str, marker: &str) -> (r: String)
    ensures
        r@ == cleaned_echo(output@, marker@),
{
    let v = str_chars(output);
    let m = str_chars(marker);
    let r = clean_marker_echo_chars(v.as_slice(), m.as_slice());
    chars_string(r.as_slice())
}

// ---------------------------------------------------------------------
// Output framed by a status marker
// ---------------------------------------------------------------------

/// Why the shell's output could not be read.
#[derive(Debug, Clone, Copy, PartialEq, Eq)]
pub enum ShellOutputError {
    MissingPromptMarker,
    MissingExitStatus,
    InvalidExitStatus,
    MissingReadyMarker,
}

impl ShellOutputError {
    pub fn message(&self) -> (r: &'static str)
        ensures
            r@ == match self {
                ShellOutputError::MissingPromptMarker => "backend shell output did not contain prompt marker"@,
                ShellOutputError::MissingExitStatus => "backend shell prompt marker did not include exit status"@,
                ShellOutputError::InvalidExitStatus => "invalid shell exit status"@,
                ShellOutputError::MissingReadyMarker => "backend shell output did not contain ready marker"@,
            },
    {
        match self {
            ShellOutputError::MissingPromptMarker => "backend shell output did not contain prompt marker",
            ShellOutputError::MissingExitStatus => "backend shell prompt marker did not include exit status",
            ShellOutputError::InvalidExitStatus => "invalid shell exit status",
            ShellOutputError::MissingReadyMarker => "backend shell output did not contain ready marker",
        }
    }
}

pub open spec fn opt_view(o: Option<String>) -> Option<Seq<char>> {
    match o {
        Some(s) => Some(s@),
        None => None,
    }
}

/// `s` without one line ending at its end: `\r\n`, `\n` or `\r`.
pub open spec fn sep_stripped(s: Seq<char>) -> Seq<char> {
    if has_suffix(s, seq!['\r', '\n']) {
        s.take(s.len() - 2)
    } else if s.len() > 0 && (s.last() == '\n' || s.last() == '\r') {
        s.drop_last()
    } else {
        s
    }
}

pub open spec fn digit_set() -> Seq<char> {
    seq!['0', '1', '2', '3', '4', '5', '6', '7', '8', '9']
}

/// What follows the start marker and its tab on the last line that has it.
pub open spec fn last_started(lines: Seq<Seq<char>>) -> Option<Seq<char>>
    decreases lines.len(),
{
    if lines.len() == 0 {
        None
    } else if has_prefix(lines.last(), start_prefix()) {
        Some(lines.last().skip(start_prefix().len() as int))
    } else {
        last_started(lines.drop_last())
    }
}

/// The command that the last start-marker line of `output` names, unless
/// it is empty.
pub open spec fn started_command_of(output: Seq<char>) -> Option<Seq<char>> {
    match last_started(text_lines(output)) {
        Some(c) => if c.len() > 0 {
            Some(c)
        } else {
            None
        },
        None => None,
    }
}

/// The first line of `s`, or nothing.
pub open spec fn first_line(s: Seq<char>) -> Seq<char> {
    let l = text_lines(s);
    if l.len() > 0 {
        l[0]
    } else {
        seq![]
    }
}

/// The working directory after the exit status: a tab, then the rest of
/// that line, when it is not empty.
pub open spec fn marker_cwd(tail: Seq<char>) -> Option<Seq<char>> {
    if tail.len() > 0 && tail[0] == '\t' {
        let line = first_line(normalized(tail.skip(1)));
        if line.len() > 0 {
            Some(line)
        } else {
            None
        }
    } else {
        None
    }
}

/// The output before the status marker at `pos`, its last line break and
/// the blank lines at its start left out.
pub open spec fn before_marker(raw: Seq<char>, pos: int) -> Seq<char> {
    trim_start_in(normalized(sep_stripped(raw.take(pos))), seq!['\n'])
}

/// The digits right after position `st`.
pub open spec fn status_digits(raw: Seq<char>, st: int) -> Seq<char> {
    raw.skip(st).take(lead_in(raw.skip(st), digit_set()) as int)
}

/// Output, exit status, working directory and started command that the
/// shell's output `raw` reports around `marker`.
pub open spec fn marker_output(raw: Seq<char>, marker: Seq<char>) -> Result<
    (Seq<char>, i32, Option<Seq<char>>, Option<Seq<char>>),
    ShellOutputError,
> {
    match complete_marker_from(raw, marker, 0) {
        None => Err(ShellOutputError::MissingPromptMarker),
        Some(pos) => {
            let before = before_marker(raw, pos);
            let st = pos + marker.len();
            let status = status_digits(raw, st);
            if status.len() == 0 {
                Err(ShellOutputError::MissingExitStatus)
            } else {
                match i32_value(status) {
                    None => Err(ShellOutputError::InvalidExitStatus),
                    Some(code) => Ok(
                        (
                            cleaned_echo(before, marker),
                            code,
                            marker_cwd(raw.skip(st + status.len())),
                            started_command_of(before),
                        ),
                    ),
                }
            }
        },
    }
}

fn sep_stripped_of(v: &[char]) -> (r: Vec<char>)
    ensures
        r@ == sep_stripped(v@),
{
    let n = v.len();
    if n >= 2 && v[n - 2] == '\r' && v[n - 1] == '\n' {
        assert(v@.skip(n - 2) =~= seq!['\r', '\n']);
        sub_chars(v, 0, n - 2)
    } else {
        proof {
            if has_suffix(v@, seq!['\r', '\n']) {
                assert(v@.skip(n - 2)[0] == v@[n - 2]);
                assert(v@.skip(n - 2)[1] == v@[n - 1]);
            }
        }
        if n >= 1 && (v[n - 1] == '\n' || v[n - 1] == '\r') {
            sub_chars(v, 0, n - 1)
        } else {
            sub_chars(v, 0, n)
        }
    }
}

fn started_command_in(output: &[char]) -> (r: Option<String>)
    ensures
        opt_view(r) == started_command_of(output@),
{
    let lines = lines_of(output);
    let ghost ls = text_lines(output@);
    let prefix = marker_prefix_chars(start_marker());
    let mut found: Option<Vec<char>> = None;
    let mut i: usize = 0;
    assert(ls.take(0) =~= Seq::<Seq<char>>::empty());
    while i < lines.len()
        invariant
            i <= lines@.len(),
            lines@.map_values(|l: Vec<char>| l@) == ls,
            prefix@ == start_prefix(),
            match found {
                Some(f) => last_started(ls.take(i as int)) == Some(f@),
                None => last_started(ls.take(i as int)) is None,
            },
        decreases lines.len() - i,
    {
        assert(ls.take(i + 1).drop_last() =~= ls.take(i as int));
        assert(ls.take(i + 1).last() == lines@[i as int]@);
        if starts_with(lines[i].as_slice(), prefix.as_slice()) {
            let rest = sub_chars(lines[i].as_slice(), prefix.len(), lines[i].len());
            assert(rest@ =~= lines@[i as int]@.skip(start_prefix().len() as int));
            found = Some(rest);
        }
        i = i + 1;
    }
    assert(ls.take(lines@.len() as int) =~= ls);
    match found {
        Some(f) => if f.len() > 0 {
            Some(chars_string(f.as_slice()))
        } else {
            None
        },
        None => None,
    }
}

fn marker_cwd_of(tail: &[char]) -> (r: Option<String>)
    ensures
        opt_view(r) == marker_cwd(tail@),
{
    if tail.len() > 0 && tail[0] == '\t' {
        let rest = sub_chars(tail, 1, tail.len());
        assert(rest@ =~= tail@.skip(1));
        let norm = normalize_chars(rest.as_slice());
        let lines = lines_of(norm.as_slice());
        let ghost l = text_lines(norm@);
        assert(lines@.len() == l.len());
        if lines.len() > 0 && lines[0].len() > 0 {
            assert(lines@[0]@ == l[0]);
            Some(chars_string(lines[0].as_slice()))
        } else {
            proof {
                if lines.len() > 0 {
                    assert(lines@[0]@ == l[0]);
                }
            }
            None
        }
    } else {
        None
    }
}

/// Reads what the shell printed up to `marker`: the output (without the
/// echoed marker commands), the exit status after the marker, the working
/// directory after it and the command that the start marker named.
pub fn parse_marker_output(raw: &str, marker: &str) -> (r: Result<
    (String, i32, Option<String>, Option<String>),
    ShellOutputError,
>)
    ensures
        match marker_output(raw@, marker@) {
            Ok(t) => r matches Ok(u) && u.0@ == t.0 && u.1 == t.1 && opt_view(u.2) == t.2
                && opt_view(u.3) == t.3,
            Err(e) => r == Err::<(String, i32, Option<String>, Option<String>), ShellOutputError>(e),
        },
{
    let v = str_chars(raw);
    let m = str_chars(marker);
    let pos = match find_complete_marker_chars(v.as_slice(), m.as_slice()) {
        Some(p) => p,
        None => {
            return Err(ShellOutputError::MissingPromptMarker);
        },
    };
    proof {
        lemma_complete_marker_found(v@, m@, 0);
        assert(status_complete_at(v@, m@, pos as int));
        assert(pos + m@.len() < v@.len());
    }
    let st = pos + m.len();
    let head = sub_chars(v.as_slice(), 0, pos);
    assert(head@ =~= v@.take(pos as int));
    let stripped = sep_stripped_of(head.as_slice());
    let norm = normalize_chars(stripped.as_slice());
    let mut nl: Vec<char> = Vec::new();
    nl.push('\n');
    assert(nl@ =~= seq!['\n']);
    let lead = lead_in_exec(norm.as_slice(), nl.as_slice());
    let before = sub_chars(norm.as_slice(), lead, norm.len());
    assert(before@ =~= before_marker(v@, pos as int));
    let started = started_command_in(before.as_slice());
    let output = clean_marker_echo_chars(before.as_slice(), m.as_slice());
    let after = sub_chars(v.as_slice(), st, v.len());
    assert(after@ =~= v@.skip(st as int));
    let digit_vec: Vec<char> = vec!['0', '1', '2', '3', '4', '5', '6', '7', '8', '9'];
    assert(digit_vec@ =~= digit_set());
    let nd = lead_in_exec(after.as_slice(), digit_vec.as_slice());
    let status = sub_chars(after.as_slice(), 0, nd);
    assert(status@ =~= status_digits(v@, st as int));
    if status.len() == 0 {
        return Err(ShellOutputError::MissingExitStatus);
    }
    let code = match parse_i32_chars(status.as_slice()) {
        Some(c) => c,
        None => {
            return Err(ShellOutputError::InvalidExitStatus);
        },
    };
    let tail = sub_chars(v.as_slice(), st + nd, v.len());
    assert(tail@ =~= v@.skip(st + status@.len()));
    let cwd = marker_cwd_of(tail.as_slice());
    Ok((chars_string(output.as_slice()), code, cwd, started))
}

// ---------------------------------------------------------------------
// Output framed by the start and ready markers
// ---------------------------------------------------------------------

/// A command's result as the ready marker reports it.
#[derive(Debug, Clone, PartialEq, Eq)]
pub struct HookCommandResult {
    pub output: String,
    pub exit_code: i32,
    pub cwd: String,
    pub started_command: Option<String>,
}

/// What a ready-marker line with an exit status saw.
pub struct ReadySnapshot {
    pub code: i32,
    pub cwd: Seq<char>,
    pub lines: Seq<Seq<char>>,
    pub started: Option<Seq<char>>,
}

/// Where a scan of the output lines stands.
pub struct ScanState {
    pub ready: Option<ReadySnapshot>,
    pub started: Option<Seq<char>>,
    pub saw_start: bool,
    pub pre: Seq<Seq<char>>,
    pub cmd: Seq<Seq<char>>,
}

pub open spec fn scan_start() -> ScanState {
    ScanState { ready: None, started: None, saw_start: false, pre: seq![], cmd: seq![] }
}

/// One line of the scan: a start-marker line starts a command's output; a
/// ready-marker line with an exit status takes a snapshot of the output so
/// far (the command's, once a start marker was seen); other lines are
/// output.
pub open spec fn scan_step(st: ScanState, line: Seq<char>) -> ScanState {
    let m = marker_view(line);
    if has_prefix(m, start_prefix()) {
        ScanState {
            ready: st.ready,
            started: Some(m.skip(start_prefix().len() as int)),
            saw_start: true,
            pre: st.pre,
            cmd: seq![],
        }
    } else if has_prefix(m, ready_prefix()) {
        match ready_fields(m.skip(ready_prefix().len() as int)) {
            Some(f) => match f.0 {
                Some(code) => ScanState {
                    ready: Some(
                        ReadySnapshot {
                            code,
                            cwd: f.1,
                            lines: if st.saw_start {
                                st.cmd
                            } else {
                                st.pre
                            },
                            started: st.started,
                        },
                    ),
                    started: st.started,
                    saw_start: st.saw_start,
                    pre: st.pre,
                    cmd: st.cmd,
                },
                None => st,
            },
            None => st,
        }
    } else if st.saw_start {
        ScanState {
            ready: st.ready,
            started: st.started,
            saw_start: st.saw_start,
            pre: st.pre,
            cmd: st.cmd.push(line),
        }
    } else {
        ScanState {
            ready: st.ready,
            started: st.started,
            saw_start: st.saw_start,
            pre: st.pre.push(line),
            cmd: st.cmd,
        }
    }
}

pub open spec fn scan(lines: Seq<Seq<char>>) -> ScanState
    decreases lines.len(),
{
    if lines.len() == 0 {
        scan_start()
    } else {
        scan_step(scan(lines.drop_last()), lines.last())
    }
}

/// Number of empty lines at the start.
pub open spec fn lead_empty(ls: Seq<Seq<char>>) -> nat
    decreases ls.len(),
{
    if ls.len() > 0 && ls[0].len() == 0 {
        1 + lead_empty(ls.drop_first())
    } else {
        0
    }
}

/// Number of empty lines at the end.
pub open spec fn trail_empty(ls: Seq<Seq<char>>) -> nat
    decreases ls.len(),
{
    if ls.len() > 0 && ls.last().len() == 0 {
        1 + trail_empty(ls.drop_last())
    } else {
        0
    }
}

pub proof fn lemma_lead_empty(ls: Seq<Seq<char>>)
    ensures
        lead_empty(ls) <= ls.len(),
    decreases ls.len(),
{
    if ls.len() > 0 {
        lemma_lead_empty(ls.drop_first());
    }
}

pub proof fn lemma_trail_empty(ls: Seq<Seq<char>>)
    ensures
        trail_empty(ls) <= ls.len(),
    decreases ls.len(),
{
    if ls.len() > 0 {
        lemma_trail_empty(ls.drop_last());
    }
}

/// `ls` without empty lines at either end.
pub open spec fn trim_empty_lines(ls: Seq<Seq<char>>) -> Seq<Seq<char>> {
    let a = ls.skip(lead_empty(ls) as int);
    a.take(a.len() - trail_empty(a))
}

/// The lines joined by `\n`.
pub open spec fn join_lines(ls: Seq<Seq<char>>) -> Seq<char>
    decreases ls.len(),
{
    if ls.len() == 0 {
        seq![]
    } else if ls.len() == 1 {
        ls[0]
    } else {
        join_lines(ls.drop_last()).push('\n') + ls.last()
    }
}

/// The command output from its lines: empty lines at both ends left out,
/// and a final `\n` when the output ended with one.
pub open spec fn hook_output(lines: Seq<Seq<char>>, ended: bool) -> Seq<char> {
    let t = trim_empty_lines(lines);
    if t.len() == 0 {
        seq![]
    } else if ended {
        join_lines(t).push('\n')
    } else {
        join_lines(t)
    }
}

/// Output, exit status, working directory and started command that the
/// last ready-marker line with a status reports. With `strip_repaint` fish
/// repaint noise is removed; with `separator` the line break before the
/// ready marker belongs to the prompt, so only an empty last line means
/// the output ended with a line break.
pub open spec fn ready_status_output(raw: Seq<char>, strip_repaint: bool, separator: bool) -> Result<
    (Seq<char>, i32, Seq<char>, Option<Seq<char>>),
    ShellOutputError,
> {
    match scan(complete_lines(normalized(raw))).ready {
        None => Err(ShellOutputError::MissingReadyMarker),
        Some(snap) => {
            let lines = if strip_repaint {
                fish_cleaned(snap.lines, snap.started)
            } else {
                snap.lines
            };
            let ended = if separator {
                lines.len() > 0 && lines.last().len() == 0
            } else {
                lines.len() > 0
            };
            Ok((hook_output(lines, ended), snap.code, snap.cwd, snap.started))
        },
    }
}

pub open spec fn line_views(v: Vec<Vec<char>>) -> Seq<Seq<char>> {
    v@.map_values(|l: Vec<char>| l@)
}

pub open spec fn opt_chars(o: Option<Vec<char>>) -> Option<Seq<char>> {
    match o {
        Some(v) => Some(v@),
        None => None,
    }
}

struct ReadyHeld {
    code: i32,
    cwd: Vec<char>,
    lines: Vec<Vec<char>>,
    started: Option<Vec<char>>,
}

spec fn held_matches(h: Option<ReadyHeld>, s: Option<ReadySnapshot>) -> bool {
    match h {
        Some(r) => s matches Some(t) && r.code == t.code && r.cwd@ == t.cwd && line_views(r.lines) == t.lines
            && opt_chars(r.started) == t.started,
        None => s is None,
    }
}

fn copy_lines(v: &Vec<Vec<char>>) -> (r: Vec<Vec<char>>)
    ensures
        line_views(r) == line_views(*v),
{
    let mut out: Vec<Vec<char>> = Vec::new();
    let mut i: usize = 0;
    while i < v.len()
        invariant
            i <= v@.len(),
            out@.len() == i,
            forall|k: int| 0 <= k < i ==> #[trigger] out@[k]@ == v@[k]@,
        decreases v.len() - i,
    {
        out.push(sub_chars(v[i].as_slice(), 0, v[i].len()));
        assert(out@[i as int]@ =~= v@[i as int]@);
        i = i + 1;
    }
    assert(line_views(out) =~= line_views(*v));
    out
}

fn copy_opt(o: &Option<Vec<char>>) -> (r: Option<Vec<char>>)
    ensures
        opt_chars(r) == opt_chars(*o),
{
    match o {
        Some(v) => {
            let c = sub_chars(v.as_slice(), 0, v.len());
            assert(c@ =~= v@);
            Some(c)
        },
        None => None,
    }
}

fn push_line(v: &mut Vec<Vec<char>>, line: &[char])
    ensures
        line_views(*final(v)) == line_views(*old(v)).push(line@),
{
    let ghost before = line_views(*v);
    let c = sub_chars(line, 0, line.len());
    assert(c@ =~= line@);
    v.push(c);
    assert(line_views(*v) =~= before.push(line@));
}

pub fn lines_to_strings(v: &Vec<Vec<char>>) -> (r: Vec<String>)
    ensures
        r@.map_values(|l: String| l@) == line_views(*v),
{
    let mut out: Vec<String> = Vec::new();
    let mut i: usize = 0;
    while i < v.len()
        invariant
            i <= v@.len(),
            out@.len() == i,
            forall|k: int| 0 <= k < i ==> #[trigger] out@[k]@ == v@[k]@,
        decreases v.len() - i,
    {
        out.push(chars_string(v[i].as_slice()));
        i = i + 1;
    }
    assert(out@.map_values(|l: String| l@) =~= line_views(*v));
    out
}

pub fn strings_to_lines(v: &Vec<String>) -> (r: Vec<Vec<char>>)
    ensures
        line_views(r) == v@.map_values(|l: String| l@),
{
    let mut out: Vec<Vec<char>> = Vec::new();
    let mut i: usize = 0;
    while i < v.len()
        invariant
            i <= v@.len(),
            out@.len() == i,
            forall|k: int| 0 <= k < i ==> #[trigger] out@[k]@ == v@[k]@,
        decreases v.len() - i,
    {
        out.push(str_chars(v[i].as_str()));
        i = i + 1;
    }
    assert(line_views(out) =~= v@.map_values(|l: String| l@));
    out
}

fn scan_lines(lines: &Vec<Vec<char>>) -> (r: Option<ReadyHeld>)
    ensures
        held_matches(r, scan(line_views(*lines)).ready),
{
    let ghost all = line_views(*lines);
    let start_p = marker_prefix_chars(start_marker());
    let ready_p = marker_prefix_chars(ready_marker());
    let mut ready: Option<ReadyHeld> = None;
    let mut started: Option<Vec<char>> = None;
    let mut saw_start = false;
    let mut pre: Vec<Vec<char>> = Vec::new();
    let mut cmd: Vec<Vec<char>> = Vec::new();
    let mut i: usize = 0;
    assert(all.take(0) =~= Seq::<Seq<char>>::empty());
    assert(line_views(pre) =~= Seq::<Seq<char>>::empty());
    assert(line_views(cmd) =~= Seq::<Seq<char>>::empty());
    while i < lines.len()
        invariant
            i <= lines@.len(),
            all == line_views(*lines),
            start_p@ == start_prefix(),
            ready_p@ == ready_prefix(),
            held_matches(ready, scan(all.take(i as int)).ready),
            opt_chars(started) == scan(all.take(i as int)).started,
            saw_start == scan(all.take(i as int)).saw_start,
            line_views(pre) == scan(all.take(i as int)).pre,
            line_views(cmd) == scan(all.take(i as int)).cmd,
        decreases lines.len() - i,
    {
        assert(all.take(i + 1).drop_last() =~= all.take(i as int));
        assert(all.take(i + 1).last() == lines@[i as int]@);
        let line = lines[i].as_slice();
        let m = marker_view_of(line);
        if starts_with(m.as_slice(), start_p.as_slice()) {
            let rest = sub_chars(m.as_slice(), start_p.len(), m.len());
            assert(rest@ =~= m@.skip(start_prefix().len() as int));
            started = Some(rest);
            saw_start = true;
            cmd = Vec::new();
            assert(line_views(cmd) =~= Seq::<Seq<char>>::empty());
        } else if starts_with(m.as_slice(), ready_p.as_slice()) {
            let rest = sub_chars(m.as_slice(), ready_p.len(), m.len());
            assert(rest@ =~= m@.skip(ready_prefix().len() as int));
            match ready_fields_of(rest.as_slice()) {
                Some(f) => match f.0 {
                    Some(code) => {
                        let held_lines = if saw_start {
                            copy_lines(&cmd)
                        } else {
                            copy_lines(&pre)
                        };
                        ready = Some(
                            ReadyHeld { code, cwd: f.1, lines: held_lines, started: copy_opt(&started) },
                        );
                    },
                    None => {},
                },
                None => {},
            }
        } else if saw_start {
            push_line(&mut cmd, line);
        } else {
            push_line(&mut pre, line);
        }
        i = i + 1;
    }
    assert(all.take(lines@.len() as int) =~= all);
    ready
}

fn trimmed_empty_lines(ls: &Vec<Vec<char>>) -> (r: Vec<Vec<char>>)
    ensures
        line_views(r) == trim_empty_lines(line_views(*ls)),
{
    let ghost all = line_views(*ls);
    let mut a: usize = 0;
    assert(all.skip(0) =~= all);
    while a < ls.len() && ls[a].len() == 0
        invariant
            a <= ls@.len(),
            all == line_views(*ls),
            lead_empty(all) == a + lead_empty(all.skip(a as int)),
        decreases ls.len() - a,
    {
        assert(all.skip(a as int).drop_first() =~= all.skip(a + 1));
        a = a + 1;
    }
    proof {
        if a < ls@.len() {
            assert(all.skip(a as int)[0] == all[a as int]);
        }
    }
    let mut b: usize = ls.len();
    let ghost rest = all.skip(a as int);
    assert(rest.take(rest.len() as int) =~= rest);
    while b > a && ls[b - 1].len() == 0
        invariant
            a <= b <= ls@.len(),
            all == line_views(*ls),
            rest == all.skip(a as int),
            trail_empty(rest) == (ls@.len() - b) + trail_empty(rest.take(b - a)),
        decreases b,
    {
        assert(rest.take(b - a).drop_last() =~= rest.take(b - a - 1));
        assert(rest.take(b - a).last() == all[b - 1]);
        b = b - 1;
    }
    proof {
        if b > a {
            assert(rest.take(b - a).last() == all[b - 1]);
        }
    }
    let mut out: Vec<Vec<char>> = Vec::new();
    let mut k: usize = a;
    while k < b
        invariant
            a <= k <= b <= ls@.len(),
            out@.len() == k - a,
            forall|j: int| 0 <= j < out@.len() ==> #[trigger] out@[j]@ == ls@[a + j]@,
        decreases b - k,
    {
        out.push(sub_chars(ls[k].as_slice(), 0, ls[k].len()));
        assert(out@[k - a]@ =~= ls@[k as int]@);
        k = k + 1;
    }
    assert(line_views(out) =~= trim_empty_lines(all));
    out
}

fn joined_lines(ls: &Vec<Vec<char>>) -> (r: Vec<char>)
    ensures
        r@ == join_lines(line_views(*ls)),
{
    let ghost all = line_views(*ls);
    let mut out: Vec<char> = Vec::new();
    let mut i: usize = 0;
    assert(all.take(0) =~= Seq::<Seq<char>>::empty());
    while i < ls.len()
        invariant
            i <= ls@.len(),
            all == line_views(*ls),
            out@ == join_lines(all.take(i as int)),
        decreases ls.len() - i,
    {
        assert(all.take(i + 1).drop_last() =~= all.take(i as int));
        assert(all.take(i + 1).last() == ls@[i as int]@);
        if i > 0 {
            out.push('\n');
        } else {
            assert(all.take(1) =~= seq![ls@[0]@]);
        }
        crate::text::extend_chars(&mut out, ls[i].as_slice());
        i = i + 1;
    }
    assert(all.take(ls@.len() as int) =~= all);
    out
}

fn parse_ready_status_output_inner(raw: &str, strip_terminal_repaint: bool, separator: bool) -> (r: Result<
    HookCommandResult,
    ShellOutputError,
>)
    ensures
        match ready_status_output(raw@, strip_terminal_repaint, separator) {
            Ok(t) => r matches Ok(h) && h.output@ == t.0 && h.exit_code == t.1 && h.cwd@ == t.2
                && opt_view(h.started_command) == t.3,
            Err(e) => r == Err::<HookCommandResult, ShellOutputError>(e),
        },
{
    let v = str_chars(raw);
    let norm = normalize_chars(v.as_slice());
    let lines = complete_lines_of(norm.as_slice());
    let held = match scan_lines(&lines) {
        Some(h) => h,
        None => {
            return Err(ShellOutputError::MissingReadyMarker);
        },
    };
    let ghost snap = scan(complete_lines(normalized(raw@))).ready.unwrap();
    let started = match &held.started {
        Some(c) => Some(chars_string(c.as_slice())),
        None => None,
    };
    let lines = if strip_terminal_repaint {
        let as_strings = lines_to_strings(&held.lines);
        let cleaned = match &started {
            Some(c) => clean_fish_repaint_lines(as_strings, Some(c.as_str())),
            None => clean_fish_repaint_lines(as_strings, None),
        };
        strings_to_lines(&cleaned)
    } else {
        held.lines
    };
    let ghost lv = if strip_terminal_repaint {
        fish_cleaned(snap.lines, snap.started)
    } else {
        snap.lines
    };
    assert(line_views(lines) == lv);
    let ended = if separator {
        lines.len() > 0 && lines[lines.len() - 1].len() == 0
    } else {
        lines.len() > 0
    };
    proof {
        if lines@.len() > 0 {
            assert(lv.last() == lines@[lines@.len() - 1]@);
        }
    }
    let t = trimmed_empty_lines(&lines);
    let mut out = if t.len() == 0 {
        Vec::new()
    } else {
        joined_lines(&t)
    };
    if t.len() > 0 && ended {
        out.push('\n');
    }
    assert(out@ =~= hook_output(lv, ended));
    Ok(
        HookCommandResult {
            output: chars_string(out.as_slice()),
            exit_code: held.code,
            cwd: chars_string(held.cwd.as_slice()),
            started_command: started,
        },
    )
}

/// Reads the command's result from output framed by the start and ready
/// markers, where the line break before the ready marker is output.
pub fn parse_ready_status_output(raw: &str, strip_terminal_repaint: bool) -> (r: Result<
    HookCommandResult,
    ShellOutputError,
>)
    ensures
        match ready_status_output(raw@, strip_terminal_repaint, false) {
            Ok(t) => r matches Ok(h) && h.output@ == t.0 && h.exit_code == t.1 && h.cwd@ == t.2
                && opt_view(h.started_command) == t.3,
            Err(e) => r == Err::<HookCommandResult, ShellOutputError>(e),
        },
{
    parse_ready_status_output_inner(raw, strip_terminal_repaint, false)
}

/// As `parse_ready_status_output`, where the prompt prints a line break
/// before the ready marker.
pub fn parse_ready_status_output_with_prompt_separator(raw: &str, strip_terminal_repaint: bool) -> (r: Result<
    HookCommandResult,
    ShellOutputError,
>)
    ensures
        match ready_status_output(raw@, strip_terminal_repaint, true) {
            Ok(t) => r matches Ok(h) && h.output@ == t.0 && h.exit_code == t.1 && h.cwd@ == t.2
                && opt_view(h.started_command) == t.3,
            Err(e) => r == Err::<HookCommandResult, ShellOutputError>(e),
        },
{
    parse_ready_status_output_inner(raw, strip_terminal_repaint, true)
}

/// The command output from its lines, as `hook_output` says.
pub fn hook_output_string(lines: &Vec<Vec<char>>, ended: bool) -> (r: String)
    ensures
        r@ == hook_output(line_views(*lines), ended),
{
    let t = trimmed_empty_lines(lines);
    let mut out = if t.len() == 0 {
        Vec::new()
    } else {
        joined_lines(&t)
    };
    if t.len() > 0 && ended {
        out.push('\n');
    }
    assert(out@ =~= hook_output(line_views(*lines), ended));
    chars_string(out.as_slice())
}

} // verus!
