//! Terminal column widths: truncation with an ellipsis and the position of
//! the cursor after wrapped text.
use vstd::prelude::*;
use crate::text::{chars_string, push_chars, split_on, str_chars};

verus! {

broadcast use vstd::string::group_string_axioms;

/// The column width that `unicode_width` gives a character from code
/// point U+00A0 on (its Unicode tables, non-CJK rules).
pub uninterp spec fn unicode_char_width(c: char) -> usize;

/// The column width that `unicode_width` gives a string; it is not always
/// the sum of the character widths (emoji and script ligatures).
pub uninterp spec fn unicode_str_width(s: Seq<char>) -> nat;

/// `unicode_width::UnicodeWidthChar::width`: `None` for the C0 and C1
/// control codes, 1 for printable ASCII, and the table width, at most 3,
/// from U+00A0 on.
#[verifier::external_body]
fn unicode_width_of_char(c: char) -> (r: Option<usize>)
    ensures
        (c as u32) < 0x20 ==> r is None,
        0x20 <= (c as u32) < 0x7f ==> r == Some(1usize),
        0x7f <= (c as u32) < 0xa0 ==> r is None,
        0xa0 <= (c as u32) ==> r == Some(unicode_char_width(c)),
        0xa0 <= (c as u32) ==> r.unwrap() <= 3,
{
    unicode_width::UnicodeWidthChar::width(c)
}

/// `unicode_width::UnicodeWidthStr::width`: the column width of `s`.
#[verifier::external_body]
fn unicode_width_of_str(s: &str) -> (r: usize)
    ensures
        r == unicode_str_width(s@),
{
    unicode_width::UnicodeWidthStr::width(s)
}

/// Columns taken by one character: a tab counts one column, control codes
/// none.
pub open spec fn char_columns(c: char) -> nat {
    if c == '\t' {
        1
    } else if (c as u32) < 0x20 || (0x7f <= (c as u32) && (c as u32) < 0xa0) {
        0
    } else if (c as u32) < 0x7f {
        1
    } else {
        unicode_char_width(c) as nat
    }
}

pub fn char_display_width(ch: char) -> (r: usize)
    ensures
        r == char_columns(ch),
        r <= 3,
{
    if ch == '\t' {
        return 1;
    }
    match unicode_width_of_char(ch) {
        Some(w) => w,
        None => 0,
    }
}

pub open spec fn sum_str_widths(pieces: Seq<Seq<char>>) -> nat
    decreases pieces.len(),
{
    if pieces.len() == 0 {
        0
    } else {
        sum_str_widths(pieces.drop_last()) + unicode_str_width(pieces.last())
    }
}

/// Display width of a line: the widths of the pieces between tabs, plus
/// one column per tab.
pub open spec fn line_width(t: Seq<char>) -> nat {
    sum_str_widths(split_on(t, '\t')) + (split_on(t, '\t').len() - 1) as nat
}

/// The display width, or `None` when it does not fit a `usize`.
pub fn checked_display_width(text: &str) -> (r: Option<usize>)
    ensures
        match r {
            Some(w) => w == line_width(text@),
            None => line_width(text@) > usize::MAX,
        },
{
    let v = str_chars(text);
    let mut total: usize = 0;
    let mut piece: Vec<char> = Vec::new();
    let mut i: usize = 0;
    proof {
        assert(v@.take(0) =~= Seq::<char>::empty());
    }
    while i < v.len()
        invariant
            i <= v@.len(),
            v@ == text@,
            piece@ == split_on(v@.take(i as int), '\t').last(),
            total == sum_str_widths(split_on(v@.take(i as int), '\t').drop_last()) + (split_on(
                v@.take(i as int),
                '\t',
            ).len() - 1),
        decreases v.len() - i,
    {
        let ghost prev = split_on(v@.take(i as int), '\t');
        proof {
            crate::text::lemma_split_on_len(v@.take(i as int), '\t');
            assert(v@.take(i + 1).drop_last() =~= v@.take(i as int));
        }
        if v[i] == '\t' {
            let s = chars_string(piece.as_slice());
            let w = unicode_width_of_str(s.as_str());
            let ghost next = split_on(v@.take(i + 1), '\t');
            proof {
                assert(next == prev.push(seq![]));
                assert(next.drop_last() =~= prev);
                assert(prev.drop_last().push(prev.last()) =~= prev);
                assert(sum_str_widths(prev) == sum_str_widths(prev.drop_last()) + unicode_str_width(prev.last()));
            }
            match total.checked_add(w) {
                Some(t1) => match t1.checked_add(1) {
                    Some(t2) => {
                        total = t2;
                    },
                    None => {
                        proof {
                            lemma_line_width_grows(v@, i as int + 1);
                        }
                        return None;
                    },
                },
                None => {
                    proof {
                        lemma_line_width_grows(v@, i as int + 1);
                    }
                    return None;
                },
            }
            piece = Vec::new();
            proof {
                assert(piece@ =~= next.last());
            }
        } else {
            piece.push(v[i]);
            proof {
                let next = split_on(v@.take(i + 1), '\t');
                assert(next == prev.update(prev.len() - 1, prev.last().push(v@[i as int])));
                assert(next.drop_last() =~= prev.drop_last());
                assert(piece@ =~= next.last());
            }
        }
        i = i + 1;
    }
    proof {
        assert(v@.take(v@.len() as int) =~= v@);
        crate::text::lemma_split_on_len(v@, '\t');
        let p = split_on(v@, '\t');
        assert(p.drop_last().push(p.last()) =~= p);
        assert(sum_str_widths(p) == sum_str_widths(p.drop_last()) + unicode_str_width(p.last()));
    }
    let s = chars_string(piece.as_slice());
    let w = unicode_width_of_str(s.as_str());
    total.checked_add(w)
}

/// The width sum over the pieces of a prefix never exceeds that of the
/// whole text.
proof fn lemma_line_width_grows(s: Seq<char>, j: int)
    requires
        0 <= j <= s.len(),
    ensures
        sum_str_widths(split_on(s.take(j), '\t').drop_last()) + split_on(s.take(j), '\t').len() - 1
            <= line_width(s),
    decreases s.len() - j,
{
    crate::text::lemma_split_on_len(s.take(j), '\t');
    if j < s.len() {
        assert(s.take(j + 1).drop_last() =~= s.take(j));
        let p = split_on(s.take(j), '\t');
        let q = split_on(s.take(j + 1), '\t');
        if s[j] == '\t' {
            assert(q == p.push(seq![]));
            assert(q.drop_last() =~= p);
            assert(p.drop_last().push(p.last()) =~= p);
            assert(sum_str_widths(p) == sum_str_widths(p.drop_last()) + unicode_str_width(p.last()));
        } else {
            assert(q == p.update(p.len() - 1, p.last().push(s[j])));
            assert(q.drop_last() =~= p.drop_last());
        }
        lemma_line_width_grows(s, j + 1);
    } else {
        assert(s.take(j) =~= s);
        let p = split_on(s, '\t');
        assert(p.drop_last().push(p.last()) =~= p);
        assert(sum_str_widths(p) == sum_str_widths(p.drop_last()) + unicode_str_width(p.last()));
    }
}

/// The display width of `text`, for text whose width fits a `usize`.
pub fn display_width(text: &str) -> (r: usize)
    requires
        line_width(text@) <= usize::MAX,
    ensures
        r == line_width(text@),
{
    match checked_display_width(text) {
        Some(w) => w,
        None => 0,
    }
}

/// Columns of a character sequence, counted character by character.
pub open spec fn columns(s: Seq<char>) -> nat
    decreases s.len(),
{
    if s.len() == 0 {
        0
    } else {
        columns(s.drop_last()) + char_columns(s.last())
    }
}

/// Number of leading characters of `s` that fit in `avail` columns, taken
/// while they fit.
pub open spec fn fit_front(s: Seq<char>, avail: nat) -> nat
    decreases s.len(),
{
    if s.len() == 0 || char_columns(s[0]) > avail {
        0
    } else {
        1 + fit_front(s.drop_first(), (avail - char_columns(s[0])) as nat)
    }
}

/// Number of trailing characters of `s` that fit in `avail` columns, taken
/// from the end while they fit.
pub open spec fn fit_back(s: Seq<char>, avail: nat) -> nat
    decreases s.len(),
{
    if s.len() == 0 || char_columns(s.last()) > avail {
        0
    } else {
        1 + fit_back(s.drop_last(), (avail - char_columns(s.last())) as nat)
    }
}

pub open spec fn dots(n: nat) -> Seq<char> {
    Seq::new(n, |i: int| '.')
}

/// `value` shortened to `width` columns at its end, with `...` marking the
/// cut.
pub open spec fn truncated_end(value: Seq<char>, width: nat) -> Seq<char> {
    if line_width(value) <= width {
        value
    } else if width <= 3 {
        dots(width)
    } else {
        value.take(fit_front(value, (width - 3) as nat) as int) + dots(3)
    }
}

/// `value` shortened to `width` columns at its start, with `...` marking
/// the cut.
pub open spec fn truncated_start(value: Seq<char>, width: nat) -> Seq<char> {
    if line_width(value) <= width {
        value
    } else if width <= 3 {
        dots(width)
    } else {
        dots(3) + value.skip(value.len() - fit_back(value, (width - 3) as nat))
    }
}

fn dots_string(n: usize) -> (r: String)
    ensures
        r@ == dots(n as nat),
{
    let mut s = String::new();
    let mut i: usize = 0;
    while i < n
        invariant
            i <= n,
            s@ == dots(i as nat),
        decreases n - i,
    {
        s.push('.');
        i = i + 1;
        assert(s@ =~= dots(i as nat));
    }
    s
}

/// Walks from `k` over characters while they fit in `avail` columns.
fn fit_front_from(v: &[char], k: usize, avail: usize) -> (j: usize)
    requires
        k <= v.len(),
    ensures
        k <= j <= v.len(),
        j - k == fit_front(v@.skip(k as int), avail as nat),
    decreases v.len() - k,
{
    if k == v.len() {
        return k;
    }
    let w = char_display_width(v[k]);
    proof {
        assert(v@.skip(k as int)[0] == v@[k as int]);
        assert(v@.skip(k as int).drop_first() =~= v@.skip(k + 1));
    }
    if w > avail {
        return k;
    }
    fit_front_from(v, k + 1, avail - w)
}

/// Walks back from `k` over characters while they fit in `avail` columns.
fn fit_back_from(v: &[char], k: usize, avail: usize) -> (j: usize)
    requires
        k <= v.len(),
    ensures
        j <= k,
        k - j == fit_back(v@.take(k as int), avail as nat),
    decreases k,
{
    if k == 0 {
        return k;
    }
    let w = char_display_width(v[k - 1]);
    proof {
        assert(v@.take(k as int).last() == v@[k - 1]);
        assert(v@.take(k as int).drop_last() =~= v@.take(k - 1));
    }
    if w > avail {
        return k;
    }
    fit_back_from(v, k - 1, avail - w)
}

/// `value` cut to `width` columns at its end, with an ellipsis.
pub fn truncate_end_with_ellipsis(value: &str, width: usize) -> (r: String)
    ensures
        r@ == truncated_end(value@, width as nat),
{
    let fits = match checked_display_width(value) {
        Some(w) => w <= width,
        None => false,
    };
    if fits {
        return value.to_owned();
    }
    if width <= 3 {
        return dots_string(width);
    }
    let v = str_chars(value);
    let k = fit_front_from(v.as_slice(), 0, width - 3);
    proof {
        assert(v@.skip(0) =~= v@);
    }
    let mut s = crate::text::chars_range_string(v.as_slice(), 0, k);
    let d = dots_string(3);
    crate::text::push_str_chars(&mut s, d.as_str());
    proof {
        assert(v@.subrange(0, k as int) =~= v@.take(k as int));
    }
    s
}

/// `value` cut to `width` columns at its start, with an ellipsis.
pub fn truncate_start_with_ellipsis(value: &str, width: usize) -> (r: String)
    ensures
        r@ == truncated_start(value@, width as nat),
{
    let fits = match checked_display_width(value) {
        Some(w) => w <= width,
        None => false,
    };
    if fits {
        return value.to_owned();
    }
    if width <= 3 {
        return dots_string(width);
    }
    let v = str_chars(value);
    let k = fit_back_from(v.as_slice(), v.len(), width - 3);
    proof {
        assert(v@.take(v@.len() as int) =~= v@);
    }
    let mut s = dots_string(3);
    let tail = crate::text::sub_chars(v.as_slice(), k, v.len());
    push_chars(&mut s, tail.as_slice());
    proof {
        assert(v@.subrange(k as int, v@.len() as int) =~= v@.skip(k as int));
    }
    s
}

/// The cursor after one character, on a terminal `width` columns wide.
pub open spec fn visual_step(pos: (nat, nat), c: char, width: nat) -> (nat, nat) {
    let (row, col) = pos;
    if c == '\n' {
        (row + 1, 0)
    } else if char_columns(c) == 0 {
        (row, col)
    } else {
        let (row1, col1) = if col + char_columns(c) > width {
            (row + 1, 0nat)
        } else {
            (row, col)
        };
        let col2 = col1 + char_columns(c);
        (row1 + col2 / width, col2 % width)
    }
}

/// Row and column of the cursor after `text` is written from the top
/// left of a terminal `width` columns wide.
pub open spec fn visual_pos(text: Seq<char>, width: nat) -> (nat, nat)
    decreases text.len(),
{
    if text.len() == 0 {
        (0, 0)
    } else {
        visual_step(visual_pos(text.drop_last(), width), text.last(), width)
    }
}

/// Row and column (capped at `u16::MAX`) of the cursor after `text`; a
/// width of 0 counts as 1.
pub fn visual_position(text: &str, width: usize) -> (r: (usize, u16))
    requires
        4 * text@.len() < usize::MAX,
    ensures
        r.0 == visual_pos(text@, if width == 0 { 1nat } else { width as nat }).0,
        r.1 == if visual_pos(text@, if width == 0 { 1nat } else { width as nat }).1 > u16::MAX {
            u16::MAX as nat
        } else {
            visual_pos(text@, if width == 0 { 1nat } else { width as nat }).1
        },
        r.0 <= 4 * text@.len(),
{
    let w: usize = if width == 0 {
        1
    } else {
        width
    };
    let v = str_chars(text);
    let mut row: usize = 0;
    let mut col: usize = 0;
    let mut i: usize = 0;
    proof {
        assert(v@.take(0) =~= Seq::<char>::empty());
    }
    while i < v.len()
        invariant
            i <= v@.len(),
            v@ == text@,
            4 * v@.len() < usize::MAX,
            w >= 1,
            (row as nat, col as nat) == visual_pos(v@.take(i as int), w as nat),
            row <= 4 * i,
            col < w,
        decreases v.len() - i,
    {
        proof {
            assert(v@.take(i + 1).drop_last() =~= v@.take(i as int));
        }
        let c = v[i];
        if c == '\n' {
            row = row + 1;
            col = 0;
        } else {
            let cw = char_display_width(c);
            if cw != 0 {
                if cw > w - col {
                    row = row + 1;
                    col = 0;
                }
                let col2 = col + cw;
                assert(col2 / w <= 3 && col2 % w < w) by (nonlinear_arith)
                    requires
                        col2 < w + 3,
                        w >= 1,
                ;
                row = row + col2 / w;
                col = col2 % w;
            }
        }
        i = i + 1;
    }
    proof {
        assert(v@.take(v@.len() as int) =~= v@);
    }
    let shown: u16 = if col > 65535 {
        65535
    } else {
        col as u16
    };
    (row, shown)
}

/// Number of terminal rows that `text` takes.
pub fn visual_line_count(text: &str, width: usize) -> (r: usize)
    requires
        4 * text@.len() < usize::MAX,
    ensures
        r == visual_pos(text@, if width == 0 { 1nat } else { width as nat }).0 + 1,
{
    let (row, _) = visual_position(text, width);
    row + 1
}

} // verus!
