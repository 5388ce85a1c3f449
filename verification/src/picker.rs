//! Putting a value chosen in a picker into the command line, shell-quoted.
use vstd::prelude::*;
use crate::completion::parser::{unquote, word_value};
use crate::text::{
    byte_len, byte_offset, char_index_at_or_before, chars_byte_len, chars_range_string, chars_string,
    floor_index, is_ascii_alnum, lemma_byte_len_concat, lemma_byte_offset_full,
    lemma_byte_offset_mono, prefix_byte_len, push_chars, str_chars, sub_chars, trim_end, trim_end_chars,
    word_run_end, word_run_start, back_over_word, forward_over_word,
};

verus! {

broadcast use vstd::string::group_string_axioms;

/// Where a picked value goes.
#[derive(Debug, Clone, Copy, PartialEq, Eq)]
pub enum PickerAction {
    InsertAtCursor,
    ReplaceCurrentToken,
    AppendAsArgument,
    ReplaceLine,
}

/// The edited line and the byte offset of the cursor in it.
#[derive(Debug, Clone, PartialEq, Eq)]
pub struct PickerEdit {
    pub line: String,
    pub cursor: usize,
}

/// Characters that need no quoting in a shell word.
pub open spec fn quote_safe(c: char) -> bool {
    is_ascii_alnum(c) || c == '/' || c == '.' || c == '_' || c == '-' || c == ':' || c == '='
}

/// `s` with each single quote written as `'\''`.
pub open spec fn escape_single_quotes(s: Seq<char>) -> Seq<char>
    decreases s.len(),
{
    if s.len() == 0 {
        seq![]
    } else {
        escape_single_quotes(s.drop_last()) + if s.last() == '\'' {
            seq!['\'', '\\', '\'', '\'']
        } else {
            seq![s.last()]
        }
    }
}

/// The shell word for `v`: `''` when empty, `v` itself when every
/// character is safe, else `v` in single quotes.
pub open spec fn shell_quoted(v: Seq<char>) -> Seq<char> {
    if v.len() == 0 {
        seq!['\'', '\'']
    } else if forall|i: int| 0 <= i < v.len() ==> quote_safe(#[trigger] v[i]) {
        v
    } else {
        seq!['\''] + escape_single_quotes(v) + seq!['\'']
    }
}

/// The line after a picked value, quoted as `q`, is put in it; `c` is the
/// character index of the cursor.
pub open spec fn picked_line(line: Seq<char>, c: int, q: Seq<char>, action: PickerAction) -> Seq<char> {
    match action {
        PickerAction::InsertAtCursor => line.take(c) + q + line.skip(c),
        PickerAction::ReplaceCurrentToken => line.take(word_run_start(line, c)) + q + line.skip(
            word_run_end(line, c),
        ),
        PickerAction::AppendAsArgument => if trim_end(line).len() == 0 {
            q
        } else {
            trim_end(line).push(' ') + q
        },
        PickerAction::ReplaceLine => q,
    }
}

/// The byte offset of the cursor after the edit: just after the value.
pub open spec fn picked_cursor(line: Seq<char>, c: int, q: Seq<char>, action: PickerAction) -> int {
    match action {
        PickerAction::InsertAtCursor => (byte_offset(line, c) + byte_len(q)) as int,
        PickerAction::ReplaceCurrentToken => (byte_offset(line, word_run_start(line, c)) + byte_len(q)) as int,
        _ => byte_len(picked_line(line, c, q, action)) as int,
    }
}

proof fn lemma_escape_concat(a: Seq<char>, b: Seq<char>)
    ensures
        escape_single_quotes(a + b) == escape_single_quotes(a) + escape_single_quotes(b),
    decreases b.len(),
{
    if b.len() == 0 {
        assert(a + b =~= a);
        assert(escape_single_quotes(a) + escape_single_quotes(b) =~= escape_single_quotes(a));
    } else {
        lemma_escape_concat(a, b.drop_last());
        assert((a + b).drop_last() =~= a + b.drop_last());
        assert((a + b).last() == b.last());
        let piece = if b.last() == '\'' {
            seq!['\'', '\\', '\'', '\'']
        } else {
            seq![b.last()]
        };
        assert(escape_single_quotes(a) + escape_single_quotes(b.drop_last()) + piece =~= escape_single_quotes(a)
            + (escape_single_quotes(b.drop_last()) + piece));
    }
}

proof fn lemma_unquote_escaped(v: Seq<char>, rest: Seq<char>)
    ensures
        unquote(escape_single_quotes(v) + rest, Some('\'')) == v + unquote(rest, Some('\'')),
    decreases v.len(),
{
    if v.len() == 0 {
        assert(escape_single_quotes(v) + rest =~= rest);
        assert(v + unquote(rest, Some('\'')) =~= unquote(rest, Some('\'')));
    } else {
        let c = v[0];
        let tail = v.drop_first();
        assert(seq![c] + tail =~= v);
        lemma_escape_concat(seq![c], tail);
        assert(seq![c].drop_last() =~= Seq::<char>::empty());
        assert(seq![c].last() == c);
        assert(escape_single_quotes(Seq::<char>::empty()) == Seq::<char>::empty());
        lemma_unquote_escaped(tail, rest);
        let x = escape_single_quotes(tail) + rest;
        if c == '\'' {
            let q = seq!['\'', '\\', '\'', '\''];
            assert(Seq::<char>::empty() + q =~= q);
            assert(escape_single_quotes(seq![c]) == q);
            let s = q + x;
            assert(escape_single_quotes(v) + rest =~= s);
            let s1 = s.drop_first();
            assert(s1 =~= seq!['\\', '\'', '\''] + x);
            let s2 = s1.drop_first();
            assert(s2 =~= seq!['\'', '\''] + x);
            let s3 = s2.drop_first();
            assert(s3 =~= seq!['\''] + x);
            assert(s3.drop_first() =~= x);
            assert(unquote(s3, None) == unquote(x, Some('\'')));
            assert(unquote(s1, None) == seq!['\''] + unquote(s3, None));
            assert(unquote(s, Some('\'')) == unquote(s1, None));
            assert(seq!['\''] + (tail + unquote(rest, Some('\''))) =~= v + unquote(rest, Some('\'')));
        } else {
            assert(Seq::<char>::empty() + seq![c] =~= seq![c]);
            assert(escape_single_quotes(seq![c]) == seq![c]);
            let s = seq![c] + x;
            assert(escape_single_quotes(v) + rest =~= s);
            assert(s.drop_first() =~= x);
            assert(unquote(s, Some('\'')) == seq![c] + unquote(x, Some('\'')));
            assert(seq![c] + (tail + unquote(rest, Some('\''))) =~= v + unquote(rest, Some('\'')));
        }
    }
}

proof fn lemma_unquote_safe(v: Seq<char>)
    requires
        forall|i: int| 0 <= i < v.len() ==> quote_safe(#[trigger] v[i]),
    ensures
        unquote(v, None) == v,
    decreases v.len(),
{
    if v.len() > 0 {
        assert(quote_safe(v[0]));
        assert forall|i: int| 0 <= i < v.drop_first().len() implies quote_safe(#[trigger] v.drop_first()[i]) by {
            assert(v.drop_first()[i] == v[i + 1]);
        }
        lemma_unquote_safe(v.drop_first());
        assert(seq![v[0]] + v.drop_first() =~= v);
    }
}

/// Quoting a value for the shell and reading the quoted word back, as the
/// completion parser reads shell words, gives the value again.
pub proof fn shell_quote_round_trip(v: Seq<char>)
    ensures
        word_value(shell_quoted(v)) == v,
{
    if v.len() == 0 {
        let q = seq!['\'', '\''];
        assert(q.drop_first() =~= seq!['\'']);
        assert(q.drop_first().drop_first() =~= Seq::<char>::empty());
        assert(unquote(q.drop_first(), Some('\'')) == unquote(Seq::<char>::empty(), None));
    } else if forall|i: int| 0 <= i < v.len() ==> quote_safe(#[trigger] v[i]) {
        lemma_unquote_safe(v);
    } else {
        let s = seq!['\''] + escape_single_quotes(v) + seq!['\''];
        assert(s.drop_first() =~= escape_single_quotes(v) + seq!['\'']);
        lemma_unquote_escaped(v, seq!['\'']);
        let e = seq!['\''];
        assert(e.drop_first() =~= Seq::<char>::empty());
        assert(unquote(e, Some('\'')) == unquote(Seq::<char>::empty(), None));
        assert(v + Seq::<char>::empty() =~= v);
    }
}

fn is_quote_safe(c: char) -> (r: bool)
    ensures
        r == quote_safe(c),
{
    ('0' <= c && c <= '9') || ('a' <= c && c <= 'z') || ('A' <= c && c <= 'Z') || c == '/' || c == '.'
        || c == '_' || c == '-' || c == ':' || c == '='
}

/// Quotes `value` as one shell word.
pub fn shell_quote(value: &str) -> (r: String)
    ensures
        r@ == shell_quoted(value@),
{
    let v = str_chars(value);
    if v.len() == 0 {
        let mut s = String::new();
        s.push('\'');
        s.push('\'');
        assert(s@ =~= seq!['\'', '\'']);
        return s;
    }
    let mut safe = true;
    let mut i: usize = 0;
    while i < v.len()
        invariant
            i <= v.len(),
            safe == (forall|k: int| 0 <= k < i ==> quote_safe(#[trigger] v@[k])),
        decreases v.len() - i,
    {
        if !is_quote_safe(v[i]) {
            safe = false;
        }
        i = i + 1;
    }
    if safe {
        return chars_string(v.as_slice());
    }
    let mut s = String::new();
    s.push('\'');
    push_escaped_single_quotes(&mut s, v.as_slice());
    s.push('\'');
    assert(s@ =~= seq!['\''] + escape_single_quotes(v@) + seq!['\'']);
    s
}

/// Appends `v` with each single quote written as `'\''`.
pub fn push_escaped_single_quotes(out: &mut String, v: &[char])
    ensures
        final(out)@ == old(out)@ + escape_single_quotes(v@),
{
    let ghost start = out@;
    let mut i: usize = 0;
    assert(v@.take(0) =~= Seq::<char>::empty());
    while i < v.len()
        invariant
            i <= v.len(),
            out@ == start + escape_single_quotes(v@.take(i as int)),
        decreases v.len() - i,
    {
        assert(v@.take(i + 1).drop_last() =~= v@.take(i as int));
        let c = v[i];
        if c == '\'' {
            out.push('\'');
            out.push('\\');
            out.push('\'');
            out.push('\'');
        } else {
            out.push(c);
        }
        i = i + 1;
        assert(out@ =~= start + escape_single_quotes(v@.take(i as int)));
    }
    assert(v@.take(v.len() as int) =~= v@);
}

/// Puts the quoted `value` into `line` as `action` says, with `cursor`
/// taken back to a character boundary.
pub fn apply_picker_result(line: &str, cursor: usize, value: &str, action: PickerAction) -> (r: PickerEdit)
    requires
        byte_len(line@) + byte_len(shell_quoted(value@)) + 1 <= usize::MAX,
    ensures
        r.line@ == picked_line(line@, floor_index(line@, cursor as int), shell_quoted(value@), action),
        r.cursor == picked_cursor(line@, floor_index(line@, cursor as int), shell_quoted(value@), action),
{
    let v = str_chars(line);
    let quoted = shell_quote(value);
    let q = str_chars(quoted.as_str());
    let c = char_index_at_or_before(v.as_slice(), cursor);
    let ql = chars_byte_len(q.as_slice());
    proof {
        lemma_byte_offset_full(v@);
    }
    match action {
        PickerAction::InsertAtCursor => {
            let mut s = chars_range_string(v.as_slice(), 0, c);
            push_chars(&mut s, q.as_slice());
            let tail = sub_chars(v.as_slice(), c, v.len());
            push_chars(&mut s, tail.as_slice());
            proof {
                lemma_byte_offset_mono(v@, c as int, v@.len() as int);
                assert(v@.subrange(0, c as int) =~= v@.take(c as int));
                assert(v@.subrange(c as int, v@.len() as int) =~= v@.skip(c as int));
            }
            let pos = prefix_byte_len(v.as_slice(), c) + ql;
            PickerEdit { line: s, cursor: pos }
        },
        PickerAction::ReplaceCurrentToken => {
            let start = back_over_word(v.as_slice(), c);
            let end = forward_over_word(v.as_slice(), c);
            let mut s = chars_range_string(v.as_slice(), 0, start);
            push_chars(&mut s, q.as_slice());
            let tail = sub_chars(v.as_slice(), end, v.len());
            push_chars(&mut s, tail.as_slice());
            proof {
                lemma_byte_offset_mono(v@, start as int, v@.len() as int);
                assert(v@.subrange(0, start as int) =~= v@.take(start as int));
                assert(v@.subrange(end as int, v@.len() as int) =~= v@.skip(end as int));
            }
            let pos = prefix_byte_len(v.as_slice(), start) + ql;
            PickerEdit { line: s, cursor: pos }
        },
        PickerAction::AppendAsArgument => {
            let t = trim_end_chars(v.as_slice());
            let mut s = chars_string(t.as_slice());
            if t.len() > 0 {
                s.push(' ');
            }
            push_chars(&mut s, q.as_slice());
            let ghost head = if t@.len() == 0 { t@ } else { t@.push(' ') };
            proof {
                crate::text::lemma_trail_ws_bound(v@);
                assert(t@ =~= v@.take(t@.len() as int));
                lemma_byte_offset_mono(v@, t@.len() as int, v@.len() as int);
                lemma_byte_len_concat(head, q@);
                if t@.len() > 0 {
                    crate::text::lemma_byte_len_push(t@, ' ');
                }
            }
            let sv = str_chars(s.as_str());
            let pos = chars_byte_len(sv.as_slice());
            PickerEdit { line: s, cursor: pos }
        },
        PickerAction::ReplaceLine => PickerEdit { line: quoted, cursor: ql },
    }
}

} // verus!
