//! Command history records and the splitting of pasted text into commands.
use vstd::prelude::*;
use crate::text::{
    lines_of, text_lines,
    chars_eq, chars_string, extend_chars, find, first_from, has_infix, has_prefix, lemma_first_from, occurs_at,
    split_chars_on, split_on, str_chars, sub_chars, trim, trim_chars, trim_end, trim_end_chars,
    trim_start, trim_start_chars, ws_words, split_whitespace,
};
use crate::completion::matching::views;

verus! {

broadcast use vstd::string::group_string_axioms;

#[derive(Debug, Clone, PartialEq, Eq)]
pub struct HistoryEntry {
    pub t: i64,
    pub command: String,
    pub exit_code: Option<i32>,
    pub source: HistorySource,
}

impl HistoryEntry {
    /// A copy of the entry.
    pub fn clone_entry(&self) -> (r: Self)
        ensures
            r == *self,
    {
        HistoryEntry {
            t: self.t,
            command: self.command.clone(),
            exit_code: self.exit_code,
            source: self.source,
        }
    }
}

#[derive(Debug, Clone, Copy, PartialEq, Eq, Structural)]
pub enum HistorySource {
    User,
    Ai,
    Editor,
    Paste,
}

// ---------------------------------------------------------------------
// Splitting pasted text into logical commands
// ---------------------------------------------------------------------

/// Shell quoting state after one character: (inside single quotes,
/// inside double quotes, after a backslash).
pub open spec fn quote_step(st: (bool, bool, bool), ch: char) -> (bool, bool, bool) {
    let (single, double, escaped) = st;
    if escaped {
        (single, double, false)
    } else if ch == '\\' && !single {
        (single, double, true)
    } else if ch == '\'' && !double {
        (!single, double, false)
    } else if ch == '"' && !single {
        (single, !double, false)
    } else {
        (single, double, false)
    }
}

pub open spec fn scan_quotes(st: (bool, bool, bool), s: Seq<char>) -> (bool, bool, bool)
    decreases s.len(),
{
    if s.len() == 0 {
        st
    } else {
        quote_step(scan_quotes(st, s.drop_last()), s.last())
    }
}

/// Number of leading quote characters.
pub open spec fn lead_quotes(s: Seq<char>) -> nat
    decreases s.len(),
{
    if s.len() > 0 && (s[0] == '\'' || s[0] == '"') {
        1 + lead_quotes(s.drop_first())
    } else {
        0
    }
}

/// Number of trailing quote characters.
pub open spec fn trail_quotes(s: Seq<char>) -> nat
    decreases s.len(),
{
    if s.len() > 0 && (s.last() == '\'' || s.last() == '"') {
        1 + trail_quotes(s.drop_last())
    } else {
        0
    }
}

/// `s` without the quote characters at either end.
pub open spec fn strip_quotes(s: Seq<char>) -> Seq<char> {
    let rest = s.skip(lead_quotes(s) as int);
    rest.take(rest.len() - trail_quotes(rest))
}

/// The here-document delimiter that a line opens: the first word after
/// the first `<<` (not `<<<`), without quotes.
pub open spec fn heredoc_delim(line: Seq<char>) -> Option<Seq<char>> {
    match first_from(line, seq!['<', '<'], 0) {
        None => None,
        Some(i) => {
            let marker = trim_start(line.skip(i + 2));
            if marker.len() == 0 || marker[0] == '<' || ws_words(marker).len() == 0 {
                None
            } else {
                let t = strip_quotes(ws_words(marker)[0]);
                if t.len() == 0 {
                    None
                } else {
                    Some(t)
                }
            }
        },
    }
}

/// The line ends with a backslash, ignoring trailing whitespace.
pub open spec fn continues(line: Seq<char>) -> bool {
    trim_end(line).len() > 0 && trim_end(line).last() == '\\'
}

/// The split so far: the commands found, the command being built, the
/// quote state (single, double), and the open here-document delimiter.
pub type SplitView = (Seq<Seq<char>>, Seq<char>, bool, bool, Option<Seq<char>>);

pub open spec fn emit(commands: Seq<Seq<char>>, current: Seq<char>) -> Seq<Seq<char>> {
    if trim(current).len() > 0 {
        commands.push(trim(current))
    } else {
        commands
    }
}

/// One line of input read into the split.
pub open spec fn split_step(st: SplitView, line: Seq<char>) -> SplitView {
    let (commands, current, single, double, heredoc) = st;
    let t = trim(line);
    if (t.len() == 0 || t[0] == '#') && current.len() == 0 {
        st
    } else {
        let cur = if current.len() > 0 {
            current.push('\n') + line
        } else {
            line
        };
        match heredoc {
            Some(d) => if t == d {
                (emit(commands, cur), seq![], false, false, None)
            } else {
                (commands, cur, single, double, heredoc)
            },
            None => {
                let q = scan_quotes((single, double, false), line);
                let open = q.0 || q.1;
                let hd = if !open {
                    heredoc_delim(line)
                } else {
                    None
                };
                if hd is None && !continues(line) && !open {
                    (emit(commands, cur), seq![], false, false, None)
                } else {
                    (commands, cur, q.0, q.1, hd)
                }
            },
        }
    }
}

pub open spec fn split_fold(lines: Seq<Seq<char>>) -> SplitView
    decreases lines.len(),
{
    if lines.len() == 0 {
        (seq![], seq![], false, false, None)
    } else {
        split_step(split_fold(lines.drop_last()), lines.last())
    }
}

/// The logical commands of pasted text: lines joined while a quote is
/// open, a line ends with a backslash or a here-document runs; blank and
/// comment lines between commands are skipped; each command is trimmed.
pub open spec fn logical_commands(input: Seq<char>) -> Seq<Seq<char>> {
    let st = split_fold(text_lines(input));
    emit(st.0, st.1)
}

/// Every command in `cs` is trimmed and not empty.
pub open spec fn all_trimmed(cs: Seq<Seq<char>>) -> bool {
    forall|k: int| 0 <= k < cs.len() ==> (#[trigger] cs[k]).len() > 0 && trim(cs[k]) == cs[k]
}

proof fn lemma_emit_trimmed(commands: Seq<Seq<char>>, current: Seq<char>)
    requires
        all_trimmed(commands),
    ensures
        all_trimmed(emit(commands, current)),
{
    if trim(current).len() > 0 {
        crate::text::lemma_trim_idempotent(current);
        let e = commands.push(trim(current));
        assert forall|k: int| 0 <= k < e.len() implies (#[trigger] e[k]).len() > 0 && trim(e[k]) == e[k] by {
            if k < commands.len() {
                assert(e[k] == commands[k]);
            }
        }
    }
}

proof fn lemma_split_fold_trimmed(lines: Seq<Seq<char>>)
    ensures
        all_trimmed(split_fold(lines).0),
    decreases lines.len(),
{
    if lines.len() > 0 {
        lemma_split_fold_trimmed(lines.drop_last());
        let st = split_fold(lines.drop_last());
        let line = lines.last();
        let cur = if st.1.len() > 0 {
            st.1.push('\n') + line
        } else {
            line
        };
        lemma_emit_trimmed(st.0, cur);
    }
}

/// Every logical command is trimmed and not empty.
pub proof fn logical_commands_are_trimmed(input: Seq<char>)
    ensures
        all_trimmed(logical_commands(input)),
{
    let st = split_fold(text_lines(input));
    lemma_split_fold_trimmed(text_lines(input));
    lemma_emit_trimmed(st.0, st.1);
}

/// `st` with the commands `c` found before its own.
pub open spec fn after_commands(c: Seq<Seq<char>>, st: SplitView) -> SplitView {
    (c + st.0, st.1, st.2, st.3, st.4)
}

proof fn lemma_emit_after(c: Seq<Seq<char>>, commands: Seq<Seq<char>>, current: Seq<char>)
    ensures
        emit(c + commands, current) == c + emit(commands, current),
{
    if trim(current).len() > 0 {
        assert((c + commands).push(trim(current)) =~= c + commands.push(trim(current)));
    }
}

proof fn lemma_split_step_after(c: Seq<Seq<char>>, st: SplitView, line: Seq<char>)
    ensures
        split_step(after_commands(c, st), line) == after_commands(c, split_step(st, line)),
{
    let (commands, current, single, double, heredoc) = st;
    let cur = if current.len() > 0 {
        current.push('\n') + line
    } else {
        line
    };
    lemma_emit_after(c, commands, cur);
}

proof fn lemma_split_fold_after(first: Seq<Seq<char>>, c: Seq<Seq<char>>, rest: Seq<Seq<char>>)
    requires
        split_fold(first) == (c, Seq::<char>::empty(), false, false, None::<Seq<char>>),
    ensures
        split_fold(first + rest) == after_commands(c, split_fold(rest)),
    decreases rest.len(),
{
    if rest.len() == 0 {
        assert(first + rest =~= first);
        assert(c + Seq::<Seq<char>>::empty() =~= c);
    } else {
        lemma_split_fold_after(first, c, rest.drop_last());
        assert((first + rest).drop_last() =~= first + rest.drop_last());
        assert((first + rest).last() == rest.last());
        lemma_split_step_after(c, split_fold(rest.drop_last()), rest.last());
    }
}

proof fn lemma_split_on_after_line(l: Seq<char>, r: Seq<char>)
    requires
        !l.contains('\n'),
    ensures
        split_on(l + seq!['\n'] + r, '\n') == seq![l] + split_on(r, '\n'),
    decreases r.len(),
{
    let s = l + seq!['\n'] + r;
    if r.len() == 0 {
        lemma_split_append_plain(Seq::<char>::empty(), l);
        assert(Seq::<char>::empty() + l =~= l);
        assert(split_on(Seq::<char>::empty(), '\n') =~= seq![Seq::<char>::empty()]);
        assert(split_on(l, '\n') =~= seq![l]);
        assert(s.drop_last() =~= l);
        assert(s.last() == '\n');
        assert(seq![l] + split_on(r, '\n') =~= seq![l].push(Seq::<char>::empty()));
    } else {
        lemma_split_on_after_line(l, r.drop_last());
        assert(s.drop_last() =~= l + seq!['\n'] + r.drop_last());
        assert(s.last() == r.last());
        crate::text::lemma_split_on_len(r.drop_last(), '\n');
        let q = split_on(r.drop_last(), '\n');
        if r.last() == '\n' {
            assert((seq![l] + q).push(Seq::<char>::empty()) =~= seq![l] + q.push(Seq::<char>::empty()));
        } else {
            let p = seq![l] + q;
            assert(p.last() == q.last());
            assert(p.update(p.len() - 1, p.last().push(r.last())) =~= seq![l] + q.update(
                q.len() - 1,
                q.last().push(r.last()),
            ));
        }
    }
}

proof fn lemma_text_lines_after_line(l: Seq<char>, r: Seq<char>)
    requires
        !l.contains('\n'),
        l.len() > 0,
        l.last() != '\r',
    ensures
        text_lines(l + seq!['\n'] + r) == seq![l] + text_lines(r),
{
    lemma_split_on_after_line(l, r);
    crate::text::lemma_split_on_len(r, '\n');
    let q = split_on(r, '\n');
    let p = seq![l] + q;
    assert(p.last() == q.last());
    assert(p.drop_last() =~= seq![l] + q.drop_last());
    assert(crate::text::strip_cr(l) == l);
    assert(text_lines(l + seq!['\n'] + r) =~= seq![l] + text_lines(r));
}

/// A here-string opens no here-document. A line whose first `<<` is
/// followed, after optional whitespace, by another `<` (as in `<<<`), and
/// that leaves no quote open and does not end with a backslash, is a
/// command of its own: the lines after it split as they would alone.
pub proof fn here_string_opens_no_heredoc(l: Seq<char>, i: int, rest: Seq<char>)
    requires
        !l.contains('\n'),
        l.len() > 0,
        l.last() != '\r',
        trim(l).len() > 0,
        trim(l)[0] != '#',
        !scan_quotes((false, false, false), l).0,
        !scan_quotes((false, false, false), l).1,
        !continues(l),
        occurs_at(l, seq!['<', '<'], i),
        forall|k: int| 0 <= k < i ==> !occurs_at(l, seq!['<', '<'], k),
        trim_start(l.skip(i + 2)).len() > 0,
        trim_start(l.skip(i + 2))[0] == '<',
    ensures
        logical_commands(l + seq!['\n'] + rest) == seq![trim(l)] + logical_commands(rest),
{
    lemma_first_from(l, seq!['<', '<'], 0, Some(i));
    assert(heredoc_delim(l) is None);
    let init: SplitView = (seq![], seq![], false, false, None);
    assert(split_fold(seq![l]) == split_step(split_fold(seq![l].drop_last()), l));
    assert(seq![l].drop_last() =~= Seq::<Seq<char>>::empty());
    assert(split_fold(seq![l]) == split_step(init, l));
    assert(emit(Seq::<Seq<char>>::empty(), l) =~= seq![trim(l)]);
    assert(split_fold(seq![l]) == (seq![trim(l)], Seq::<char>::empty(), false, false, None::<Seq<char>>));
    lemma_text_lines_after_line(l, rest);
    lemma_split_fold_after(seq![l], seq![trim(l)], text_lines(rest));
    let st = split_fold(text_lines(rest));
    lemma_emit_after(seq![trim(l)], st.0, st.1);
}

/// The quote state after `line`, from (single, double).
fn quote_update(single: bool, double: bool, line: &[char]) -> (r: (bool, bool))
    ensures
        r.0 == scan_quotes((single, double, false), line@).0,
        r.1 == scan_quotes((single, double, false), line@).1,
{
    let mut s = single;
    let mut d = double;
    let mut escaped = false;
    let mut i: usize = 0;
    proof {
        assert(line@.take(0) =~= Seq::<char>::empty());
    }
    while i < line.len()
        invariant
            i <= line@.len(),
            (s, d, escaped) == scan_quotes((single, double, false), line@.take(i as int)),
        decreases line.len() - i,
    {
        proof {
            assert(line@.take(i + 1).drop_last() =~= line@.take(i as int));
        }
        let ch = line[i];
        if escaped {
            escaped = false;
        } else if ch == '\\' && !s {
            escaped = true;
        } else if ch == '\'' && !d {
            s = !s;
        } else if ch == '"' && !s {
            d = !d;
        }
        i = i + 1;
    }
    proof {
        assert(line@.take(line@.len() as int) =~= line@);
    }
    (s, d)
}

fn count_lead_quotes(s: &[char]) -> (n: usize)
    ensures
        n == lead_quotes(s@),
        n <= s.len(),
{
    let mut i: usize = 0;
    proof {
        assert(s@.skip(0) =~= s@);
    }
    while i < s.len() && (s[i] == '\'' || s[i] == '"')
        invariant
            i <= s@.len(),
            lead_quotes(s@) == i + lead_quotes(s@.skip(i as int)),
        decreases s.len() - i,
    {
        proof {
            assert(s@.skip(i as int).drop_first() =~= s@.skip(i + 1));
        }
        i = i + 1;
    }
    proof {
        assert(s@.skip(0) =~= s@);
        if i < s.len() {
            assert(s@.skip(i as int)[0] == s@[i as int]);
        }
    }
    i
}

fn count_trail_quotes(s: &[char]) -> (n: usize)
    ensures
        n == trail_quotes(s@),
        n <= s.len(),
{
    let mut j: usize = s.len();
    proof {
        assert(s@.take(s@.len() as int) =~= s@);
    }
    while j > 0 && (s[j - 1] == '\'' || s[j - 1] == '"')
        invariant
            j <= s@.len(),
            trail_quotes(s@) == (s@.len() - j) + trail_quotes(s@.take(j as int)),
        decreases j,
    {
        proof {
            assert(s@.take(j as int).drop_last() =~= s@.take(j - 1));
        }
        j = j - 1;
    }
    proof {
        assert(s@.take(s@.len() as int) =~= s@);
        if j > 0 {
            assert(s@.take(j as int).last() == s@[j - 1]);
        }
    }
    s.len() - j
}

/// The here-document delimiter that `line` opens, if any.
fn heredoc_delimiter(line: &[char]) -> (r: Option<Vec<char>>)
    ensures
        match r {
            Some(d) => heredoc_delim(line@) == Some(d@),
            None => heredoc_delim(line@) is None,
        },
{
    let ll: Vec<char> = vec!['<', '<'];
    proof {
        assert(ll@ =~= seq!['<', '<']);
    }
    let at = find(line, ll.as_slice());
    match at {
        None => {
            proof {
                lemma_first_from(line@, ll@, 0, None);
            }
            None
        },
        Some(i) => {
            proof {
                lemma_first_from(line@, ll@, 0, Some(i as int));
                assert(occurs_at(line@, ll@, i as int));
                assert(i + 2 <= line@.len());
                assert(line@.len() == line.len());
            }
            let rest = sub_chars(line, i + 2, line.len());
            let marker = trim_start_chars(rest.as_slice());
            proof {
                assert(rest@ =~= line@.skip(i + 2));
            }
            if marker.len() == 0 || marker[0] == '<' {
                return None;
            }
            let words = split_whitespace(marker.as_slice());
            if words.len() == 0 {
                return None;
            }
            let w = &words[0];
            let a = count_lead_quotes(w.as_slice());
            let tail = sub_chars(w.as_slice(), a, w.len());
            let b = count_trail_quotes(tail.as_slice());
            let tok = sub_chars(tail.as_slice(), 0, tail.len() - b);
            proof {
                assert(tail@ =~= w@.skip(a as int));
                assert(tok@ =~= strip_quotes(w@));
            }
            if tok.len() == 0 {
                None
            } else {
                Some(tok)
            }
        },
    }
}

fn line_continues(line: &[char]) -> (r: bool)
    ensures
        r == continues(line@),
{
    let t = trim_end_chars(line);
    t.len() > 0 && t[t.len() - 1] == '\\'
}

/// Appends the trimmed command, if it is not blank.
fn emit_command(commands: &mut Vec<String>, current: &[char])
    ensures
        views(final(commands)@) == emit(views(old(commands)@), current@),
{
    let t = trim_chars(current);
    if t.len() > 0 {
        let ghost before = views(commands@);
        commands.push(chars_string(t.as_slice()));
        proof {
            assert(views(commands@) =~= before.push(trim(current@)));
        }
    }
}

/// Splits pasted text into the commands it holds; see `logical_commands`.
/// The kind of a note kept beside the history.
#[derive(Debug, Clone, Copy, PartialEq, Eq, Structural)]
pub enum NoteTag {
    Todo,
    Note,
    Fixme,
}

/// A note kept beside the history: its kind and text.
#[derive(Debug, Clone, PartialEq, Eq)]
pub struct NoteEntry {
    pub tag: NoteTag,
    pub text: String,
}

pub open spec fn todo_word() -> Seq<char> {
    seq!['T', 'O', 'D', 'O', ':']
}

pub open spec fn note_word() -> Seq<char> {
    seq!['N', 'O', 'T', 'E', ':']
}

pub open spec fn fixme_word() -> Seq<char> {
    seq!['F', 'I', 'X', 'M', 'E', ':']
}

/// The note a comment holds: after the `#`, `TODO:`, `NOTE:` or `FIXME:`
/// and a text that is not blank; whitespace around the tag and the text
/// does not count.
pub open spec fn comment_note(comment: Seq<char>) -> Option<(NoteTag, Seq<char>)> {
    let body = trim(comment.skip(1));
    if has_prefix(body, todo_word()) && trim(body.skip(5)).len() > 0 {
        Some((NoteTag::Todo, trim(body.skip(5))))
    } else if has_prefix(body, note_word()) && trim(body.skip(5)).len() > 0 {
        Some((NoteTag::Note, trim(body.skip(5))))
    } else if has_prefix(body, fixme_word()) && trim(body.skip(6)).len() > 0 {
        Some((NoteTag::Fixme, trim(body.skip(6))))
    } else {
        None
    }
}

/// The notes of the comment lines that stand between commands, in order.
pub open spec fn comment_notes(lines: Seq<Seq<char>>) -> Seq<(NoteTag, Seq<char>)>
    decreases lines.len(),
{
    if lines.len() == 0 {
        seq![]
    } else {
        let front = lines.drop_last();
        let t = trim(lines.last());
        if split_fold(front).1.len() == 0 && t.len() > 0 && t[0] == '#' {
            match comment_note(t) {
                Some(n) => comment_notes(front).push(n),
                None => comment_notes(front),
            }
        } else {
            comment_notes(front)
        }
    }
}

pub open spec fn note_views(ns: Seq<(NoteTag, String)>) -> Seq<(NoteTag, Seq<char>)> {
    ns.map_values(|n: (NoteTag, String)| (n.0, n.1@))
}

fn note_of_comment(comment: &[char]) -> (r: Option<(NoteTag, String)>)
    requires
        comment@.len() > 0,
    ensures
        match comment_note(comment@) {
            Some(n) => r matches Some(x) && x.0 == n.0 && x.1@ == n.1,
            None => r is None,
        },
{
    let body = trim_chars(sub_chars(comment, 1, comment.len()).as_slice());
    let mut todo: Vec<char> = Vec::new();
    todo.push('T');
    todo.push('O');
    todo.push('D');
    todo.push('O');
    todo.push(':');
    let mut note: Vec<char> = Vec::new();
    note.push('N');
    note.push('O');
    note.push('T');
    note.push('E');
    note.push(':');
    let mut fixme: Vec<char> = Vec::new();
    fixme.push('F');
    fixme.push('I');
    fixme.push('X');
    fixme.push('M');
    fixme.push('E');
    fixme.push(':');
    assert(todo@ =~= todo_word());
    assert(note@ =~= note_word());
    assert(fixme@ =~= fixme_word());
    if crate::text::starts_with(body.as_slice(), todo.as_slice()) {
        let text = trim_chars(sub_chars(body.as_slice(), 5, body.len()).as_slice());
        if text.len() > 0 {
            return Some((NoteTag::Todo, chars_string(text.as_slice())));
        }
    }
    if crate::text::starts_with(body.as_slice(), note.as_slice()) {
        let text = trim_chars(sub_chars(body.as_slice(), 5, body.len()).as_slice());
        if text.len() > 0 {
            return Some((NoteTag::Note, chars_string(text.as_slice())));
        }
    }
    if crate::text::starts_with(body.as_slice(), fixme.as_slice()) {
        let text = trim_chars(sub_chars(body.as_slice(), 6, body.len()).as_slice());
        if text.len() > 0 {
            return Some((NoteTag::Fixme, chars_string(text.as_slice())));
        }
    }
    None
}

/// The logical commands of pasted text, as `split_logical_commands` gives
/// them, and the notes of the comment lines between them.
pub fn split_logical_commands_and_comment_notes(input: &str) -> (r: (Vec<String>, Vec<(NoteTag, String)>))
    ensures
        views(r.0@) == logical_commands(input@),
        note_views(r.1@) == comment_notes(text_lines(input@)),
{
    let v = str_chars(input);
    let lines = lines_of(v.as_slice());
    let ghost ls = text_lines(input@);
    let mut commands: Vec<String> = Vec::new();
    let mut current: Vec<char> = Vec::new();
    let mut single = false;
    let mut double = false;
    let mut heredoc: Option<Vec<char>> = None;
    let mut notes: Vec<(NoteTag, String)> = Vec::new();
    let mut i: usize = 0;
    proof {
        assert(ls.take(0) =~= Seq::<Seq<char>>::empty());
        assert(views(commands@) =~= Seq::<Seq<char>>::empty());
        assert(note_views(notes@) =~= Seq::<(NoteTag, Seq<char>)>::empty());
    }
    while i < lines.len()
        invariant
            i <= lines@.len(),
            lines@.map_values(|l: Vec<char>| l@) == ls,
            note_views(notes@) == comment_notes(ls.take(i as int)),
            split_fold(ls.take(i as int)) == (
                views(commands@),
                current@,
                single,
                double,
                match heredoc {
                    Some(d) => Some(d@),
                    None => None,
                },
            ),
        decreases lines.len() - i,
    {
        let line = &lines[i];
        proof {
            assert(ls.take(i + 1).drop_last() =~= ls.take(i as int));
            assert(ls.take(i + 1).last() == line@);
        }
        let ghost st = split_fold(ls.take(i as int));
        let t = trim_chars(line.as_slice());
        if (t.len() == 0 || t[0] == '#') && current.len() == 0 {
            if t.len() > 0 {
                let ghost before = note_views(notes@);
                match note_of_comment(t.as_slice()) {
                    Some(n) => {
                        notes.push(n);
                        assert(note_views(notes@) =~= before.push(comment_note(t@).unwrap()));
                    },
                    None => {},
                }
            }
            i = i + 1;
            continue;
        }
        if current.len() > 0 {
            current.push('\n');
        }
        extend_chars(&mut current, line.as_slice());
        let ghost cur = current@;
        proof {
            assert(cur =~= if st.1.len() > 0 {
                st.1.push('\n') + line@
            } else {
                line@
            });
        }
        match &heredoc {
            Some(d) => {
                if chars_eq(t.as_slice(), d.as_slice()) {
                    emit_command(&mut commands, current.as_slice());
                    current = Vec::new();
                    single = false;
                    double = false;
                    heredoc = None;
                    proof {
                        assert(current@ =~= Seq::<char>::empty());
                    }
                }
            },
            None => {
                let (s2, d2) = quote_update(single, double, line.as_slice());
                let open = s2 || d2;
                let hd = if !open {
                    heredoc_delimiter(line.as_slice())
                } else {
                    None
                };
                if hd.is_none() && !line_continues(line.as_slice()) && !open {
                    emit_command(&mut commands, current.as_slice());
                    current = Vec::new();
                    single = false;
                    double = false;
                    heredoc = None;
                    proof {
                        assert(current@ =~= Seq::<char>::empty());
                    }
                } else {
                    single = s2;
                    double = d2;
                    heredoc = hd;
                }
            },
        }
        i = i + 1;
    }
    proof {
        assert(ls.take(ls.len() as int) =~= ls);
    }
    emit_command(&mut commands, current.as_slice());
    (commands, notes)
}

/// The logical commands of pasted text; see `logical_commands`.
pub fn split_logical_commands(input: &str) -> (r: Vec<String>)
    ensures
        views(r@) == logical_commands(input@),
{
    split_logical_commands_and_comment_notes(input).0
}

// ---------------------------------------------------------------------
// Indexes over loaded history
// ---------------------------------------------------------------------

/// The indices `len - 1` down to `0`.
pub fn newest_first_indices(len: usize) -> (r: Vec<usize>)
    ensures
        r@.len() == len,
        forall|k: int| 0 <= k < len ==> #[trigger] r@[k] == len - 1 - k,
{
    let mut r: Vec<usize> = Vec::new();
    let mut i: usize = 0;
    while i < len
        invariant
            i <= len,
            r@.len() == i,
            forall|k: int| 0 <= k < i ==> #[trigger] r@[k] == len - 1 - k,
        decreases len - i,
    {
        r.push(len - 1 - i);
        i = i + 1;
    }
    r
}

#[derive(Debug, Clone, PartialEq, Eq)]
pub struct DraftEntry {
    pub t: i64,
    pub text: String,
}

#[derive(Debug, Clone, PartialEq, Eq)]
pub struct AiSession {
    pub id: String,
    pub t: i64,
    pub prompt: String,
    pub ctx: bool,
    pub model: String,
    pub items: Vec<AiItem>,
}

#[derive(Debug, Clone, PartialEq, Eq)]
pub struct AiItem {
    pub kind: AiItemKind,
    pub text: String,
    pub name: Option<String>,
}

#[derive(Debug, Clone, Copy, PartialEq, Eq, Structural)]
pub enum AiItemKind {
    Command,
    Template,
}

/// Where an AI-suggested command sits: session and item.
#[derive(Debug, Clone, Copy, PartialEq, Eq, Structural)]
pub struct AiCommandIndex {
    pub session_index: usize,
    pub item_index: usize,
}

/// The positions of the command items of the sessions, in order.
pub open spec fn command_positions(sessions: Seq<AiSession>) -> Seq<AiCommandIndex>
    decreases sessions.len(),
{
    if sessions.len() == 0 {
        seq![]
    } else {
        let s = sessions.len() - 1;
        command_positions(sessions.drop_last()) + command_items(sessions.last().items@, s as usize)
    }
}

/// The positions of the command items of one session.
pub open spec fn command_items(items: Seq<AiItem>, session: usize) -> Seq<AiCommandIndex>
    decreases items.len(),
{
    if items.len() == 0 {
        seq![]
    } else {
        let rest = command_items(items.drop_last(), session);
        if items.last().kind == AiItemKind::Command {
            rest.push(AiCommandIndex { session_index: session, item_index: (items.len() - 1) as usize })
        } else {
            rest
        }
    }
}

pub fn ai_command_indices(sessions: &[AiSession]) -> (r: Vec<AiCommandIndex>)
    ensures
        r@ == command_positions(sessions@),
        sessions_fit(sessions@),
{
    let mut r: Vec<AiCommandIndex> = Vec::new();
    let mut s: usize = 0;
    proof {
        assert(sessions@.take(0) =~= Seq::<AiSession>::empty());
    }
    while s < sessions.len()
        invariant
            s <= sessions@.len(),
            r@ == command_positions(sessions@.take(s as int)),
            forall|j: int| 0 <= j < s ==> (#[trigger] sessions@[j]).items@.len() <= usize::MAX,
        decreases sessions.len() - s,
    {
        let items = &sessions[s].items;
        let _n = items.len();
        let ghost base = r@;
        let mut k: usize = 0;
        proof {
            assert(items@.take(0) =~= Seq::<AiItem>::empty());
            assert(r@ =~= base + command_items(items@.take(0), s));
        }
        while k < items.len()
            invariant
                k <= items@.len(),
                s < sessions@.len(),
                items@ == sessions@[s as int].items@,
                r@ == base + command_items(items@.take(k as int), s),
            decreases items.len() - k,
        {
            proof {
                assert(items@.take(k + 1).drop_last() =~= items@.take(k as int));
            }
            if items[k].kind == AiItemKind::Command {
                r.push(AiCommandIndex { session_index: s, item_index: k });
            }
            proof {
                assert(r@ =~= base + command_items(items@.take(k + 1), s));
            }
            k = k + 1;
        }
        proof {
            assert(items@.take(items@.len() as int) =~= items@);
            assert(sessions@.take(s + 1).drop_last() =~= sessions@.take(s as int));
        }
        s = s + 1;
    }
    proof {
        assert(sessions@.take(sessions@.len() as int) =~= sessions@);
    }
    r
}

// ---------------------------------------------------------------------
// The loaded history
// ---------------------------------------------------------------------

/// A line of a JSONL file that could not be read.
#[derive(Debug, Clone, PartialEq, Eq)]
pub struct JsonlLineError {
    pub path: String,
    pub line: usize,
    pub message: String,
}

/// The items read from a JSONL file, and the lines that failed.
#[derive(Debug, Clone, PartialEq, Eq)]
pub struct JsonlLoad<T> {
    pub items: Vec<T>,
    pub errors: Vec<JsonlLineError>,
}

/// A line of a JSONL file that holds a record: its number, counted from
/// one over all lines, and its text.
#[derive(Debug, Clone, PartialEq, Eq)]
pub struct JsonlRecord {
    pub line: usize,
    pub text: String,
}

/// The numbered lines of `ls` that are not blank.
pub open spec fn records_of(ls: Seq<Seq<char>>) -> Seq<(int, Seq<char>)>
    decreases ls.len(),
{
    if ls.len() == 0 {
        seq![]
    } else if trim(ls.last()).len() == 0 {
        records_of(ls.drop_last())
    } else {
        records_of(ls.drop_last()).push((ls.len() as int, ls.last()))
    }
}

pub open spec fn record_views(rs: Seq<JsonlRecord>) -> Seq<(int, Seq<char>)> {
    rs.map_values(|r: JsonlRecord| (r.line as int, r.text@))
}

/// The records of a JSONL text: its lines, as `str::lines` splits them,
/// numbered from one, with the blank ones left out.
pub fn jsonl_records(text: &str) -> (r: Vec<JsonlRecord>)
    ensures
        record_views(r@) == records_of(text_lines(text@)),
{
    let v = str_chars(text);
    let ls = lines_of(v.as_slice());
    let ghost lv = ls@.map_values(|l: Vec<char>| l@);
    let mut out: Vec<JsonlRecord> = Vec::new();
    let mut i: usize = 0;
    assert(lv.take(0) =~= Seq::<Seq<char>>::empty());
    while i < ls.len()
        invariant
            i <= ls@.len(),
            lv == ls@.map_values(|l: Vec<char>| l@),
            record_views(out@) == records_of(lv.take(i as int)),
        decreases ls.len() - i,
    {
        assert(lv.take(i + 1).drop_last() =~= lv.take(i as int));
        assert(lv.take(i + 1).last() == ls@[i as int]@);
        let t = trim_chars(ls[i].as_slice());
        if t.len() > 0 {
            let ghost before = record_views(out@);
            out.push(JsonlRecord { line: i + 1, text: chars_string(ls[i].as_slice()) });
            assert(record_views(out@) =~= before.push(((i + 1) as int, ls@[i as int]@)));
        }
        i = i + 1;
    }
    assert(lv.take(lv.len() as int) =~= lv);
    out
}

/// JSONL text for serialized records: each followed by a line break.
pub open spec fn jsonl_text_of(lines: Seq<Seq<char>>) -> Seq<char>
    decreases lines.len(),
{
    if lines.len() == 0 {
        seq![]
    } else {
        jsonl_text_of(lines.drop_last()) + lines.last() + seq!['\n']
    }
}

pub fn jsonl_text(lines: &Vec<String>) -> (r: String)
    ensures
        r@ == jsonl_text_of(lines@.map_values(|l: String| l@)),
{
    let ghost lv = lines@.map_values(|l: String| l@);
    let mut out = String::new();
    let mut i: usize = 0;
    assert(lv.take(0) =~= Seq::<Seq<char>>::empty());
    while i < lines.len()
        invariant
            i <= lines@.len(),
            lv == lines@.map_values(|l: String| l@),
            out@ == jsonl_text_of(lv.take(i as int)),
        decreases lines.len() - i,
    {
        assert(lv.take(i + 1).drop_last() =~= lv.take(i as int));
        assert(lv.take(i + 1).last() == lines@[i as int]@);
        crate::text::push_str_chars(&mut out, lines[i].as_str());
        out.push('\n');
        i = i + 1;
    }
    assert(lv.take(lv.len() as int) =~= lv);
    out
}

proof fn lemma_split_append_plain(a: Seq<char>, l: Seq<char>)
    requires
        !l.contains('\n'),
    ensures
        split_on(a + l, '\n') == split_on(a, '\n').update(
            split_on(a, '\n').len() - 1,
            split_on(a, '\n').last() + l,
        ),
    decreases l.len(),
{
    crate::text::lemma_split_on_len(a, '\n');
    if l.len() == 0 {
        assert(a + l =~= a);
        assert(split_on(a, '\n').last() + l =~= split_on(a, '\n').last());
        assert(split_on(a, '\n').update(split_on(a, '\n').len() - 1, split_on(a, '\n').last()) =~= split_on(
            a,
            '\n',
        ));
    } else {
        let front = l.drop_last();
        assert(!front.contains('\n')) by {
            if front.contains('\n') {
                let k = choose|k: int| 0 <= k < front.len() && front[k] == '\n';
                assert(l[k] == '\n');
            }
        }
        lemma_split_append_plain(a, front);
        assert((a + l).drop_last() =~= a + front);
        assert((a + l).last() == l.last());
        assert(l.last() != '\n') by {
            assert(l[l.len() - 1] == l.last());
        }
        crate::text::lemma_split_on_len(a + front, '\n');
        let p = split_on(a, '\n');
        assert((p.last() + front).push(l.last()) =~= p.last() + l);
        assert(split_on(a + l, '\n') =~= p.update(p.len() - 1, p.last() + l));
    }
}

proof fn lemma_split_jsonl_text(lines: Seq<Seq<char>>)
    requires
        forall|k: int| 0 <= k < lines.len() ==> !(#[trigger] lines[k]).contains('\n'),
    ensures
        split_on(jsonl_text_of(lines), '\n') == lines.push(seq![]),
    decreases lines.len(),
{
    if lines.len() == 0 {
        assert(split_on(seq![], '\n') =~= seq![seq![]]);
        assert(lines.push(seq![]) =~= seq![seq![]]);
    } else {
        let front = lines.drop_last();
        assert forall|k: int| 0 <= k < front.len() implies !(#[trigger] front[k]).contains('\n') by {
            assert(front[k] == lines[k]);
        }
        lemma_split_jsonl_text(front);
        let t = jsonl_text_of(front);
        let l = lines.last();
        assert(!l.contains('\n')) by {
            assert(lines[lines.len() - 1] == l);
        }
        lemma_split_append_plain(t, l);
        let whole = t + l + seq!['\n'];
        assert(whole.drop_last() =~= t + l);
        assert(whole.last() == '\n');
        assert(front.push(seq![]).update(front.len() as int, seq![] + l) =~= front.push(l));
        assert(front.push(l) =~= lines);
        assert(split_on(whole, '\n') =~= lines.push(seq![]));
    }
}

proof fn lemma_records_of_plain(lines: Seq<Seq<char>>)
    requires
        forall|k: int| 0 <= k < lines.len() ==> trim(#[trigger] lines[k]).len() > 0,
    ensures
        records_of(lines) == Seq::new(lines.len(), |k: int| (k + 1, lines[k])),
    decreases lines.len(),
{
    if lines.len() > 0 {
        let front = lines.drop_last();
        assert forall|k: int| 0 <= k < front.len() implies trim(#[trigger] front[k]).len() > 0 by {
            assert(front[k] == lines[k]);
        }
        lemma_records_of_plain(front);
        assert(trim(lines[lines.len() - 1]).len() > 0);
        assert(Seq::new(front.len(), |k: int| (k + 1, front[k])).push((lines.len() as int, lines.last()))
            =~= Seq::new(lines.len(), |k: int| (k + 1, lines[k])));
    }
}

/// What is written as JSONL reads back: the records of the text that
/// serialized lines make are those lines, numbered from one, when no line
/// is blank, holds a line break, or ends with a carriage return.
pub proof fn jsonl_text_reads_back(lines: Seq<Seq<char>>)
    requires
        forall|k: int|
            0 <= k < lines.len() ==> {
                &&& trim(#[trigger] lines[k]).len() > 0
                &&& !lines[k].contains('\n')
                &&& !(lines[k].len() > 0 && lines[k].last() == '\r')
            },
    ensures
        records_of(text_lines(jsonl_text_of(lines))) == Seq::new(lines.len(), |k: int| (k + 1, lines[k])),
{
    lemma_split_jsonl_text(lines);
    let p = split_on(jsonl_text_of(lines), '\n');
    assert(p.drop_last() =~= lines);
    assert(p.last().len() == 0);
    assert(lines.map_values(|l: Seq<char>| crate::text::strip_cr(l)) =~= lines) by {
        assert forall|k: int| 0 <= k < lines.len() implies crate::text::strip_cr(lines[k]) == lines[k] by {}
    }
    assert(text_lines(jsonl_text_of(lines)) =~= lines);
    lemma_records_of_plain(lines);
}

/// What reading the records of a file gave, parsed: the items in order,
/// and an error for the file and line of each record that did not parse.
pub open spec fn load_items<T>(parsed: Seq<(usize, Result<T, String>)>) -> Seq<T>
    decreases parsed.len(),
{
    if parsed.len() == 0 {
        seq![]
    } else {
        match parsed.last().1 {
            Ok(t) => load_items(parsed.drop_last()).push(t),
            Err(_) => load_items(parsed.drop_last()),
        }
    }
}

pub open spec fn load_errors<T>(path: Seq<char>, parsed: Seq<(usize, Result<T, String>)>) -> Seq<(Seq<char>, usize, Seq<char>)>
    decreases parsed.len(),
{
    if parsed.len() == 0 {
        seq![]
    } else {
        match parsed.last().1 {
            Ok(_) => load_errors(path, parsed.drop_last()),
            Err(m) => load_errors(path, parsed.drop_last()).push((path, parsed.last().0, m@)),
        }
    }
}

pub open spec fn error_views(es: Seq<JsonlLineError>) -> Seq<(Seq<char>, usize, Seq<char>)> {
    es.map_values(|e: JsonlLineError| (e.path@, e.line, e.message@))
}

/// The load of a JSONL file at `path` from its records, each with its line
/// number and what parsing it gave.
pub fn jsonl_load<T>(path: &str, parsed: Vec<(usize, Result<T, String>)>) -> (r: JsonlLoad<T>)
    ensures
        r.items@ == load_items(parsed@),
        error_views(r.errors@) == load_errors(path@, parsed@),
{
    let ghost all = parsed@;
    let mut items: Vec<T> = Vec::new();
    let mut errors: Vec<JsonlLineError> = Vec::new();
    let mut rest = parsed;
    let ghost mut done: int = 0;
    assert(all.take(0) =~= Seq::<(usize, Result<T, String>)>::empty());
    while rest.len() > 0
        invariant
            0 <= done <= all.len(),
            rest@ == all.skip(done),
            items@ == load_items(all.take(done)),
            error_views(errors@) == load_errors(path@, all.take(done)),
        decreases rest.len(),
    {
        let (line, result) = rest.remove(0);
        proof {
            assert(all.take(done + 1).drop_last() =~= all.take(done));
            assert(all.take(done + 1).last() == all[done]);
            assert(all.skip(done).drop_first() =~= all.skip(done + 1));
        }
        match result {
            Ok(item) => {
                items.push(item);
            },
            Err(message) => {
                let ghost before = error_views(errors@);
                errors.push(JsonlLineError { path: path.to_string(), line, message });
                assert(error_views(errors@) =~= before.push((path@, line, all[done].1->Err_0@)));
            },
        }
        proof {
            done = done + 1;
        }
    }
    proof {
        assert(all.take(done) =~= all);
    }
    JsonlLoad { items, errors }
}

/// What `trim_combined_history` read before trimming.
#[derive(Debug, Clone, PartialEq, Eq)]
pub struct TrimHistoryLoad {
    pub regular: JsonlLoad<HistoryEntry>,
    pub ai_sessions: JsonlLoad<AiSession>,
}

/// The position of item `k` of a session in `command_positions`.
pub proof fn lemma_command_items_valid(items: Seq<AiItem>, session: usize)
    requires
        items.len() <= usize::MAX,
    ensures
        forall|k: int|
            0 <= k < command_items(items, session).len() ==> {
                let c = #[trigger] command_items(items, session)[k];
                c.session_index == session && c.item_index < items.len() && items[c.item_index as int].kind
                    == AiItemKind::Command
            },
    decreases items.len(),
{
    if items.len() > 0 {
        lemma_command_items_valid(items.drop_last(), session);
        let rest = command_items(items.drop_last(), session);
        assert forall|k: int| 0 <= k < rest.len() implies {
            let c = #[trigger] rest[k];
            c.item_index < items.len() && items[c.item_index as int].kind == AiItemKind::Command
        } by {
            let c = rest[k];
            assert(items.drop_last()[c.item_index as int] == items[c.item_index as int]);
        }
    }
}

/// The sessions and their items can be counted in `usize`.
pub open spec fn sessions_fit(sessions: Seq<AiSession>) -> bool {
    &&& sessions.len() <= usize::MAX
    &&& forall|i: int| 0 <= i < sessions.len() ==> (#[trigger] sessions[i]).items@.len() <= usize::MAX
}

/// Every position that `command_positions` gives points at a command item.
pub proof fn lemma_command_positions_valid(sessions: Seq<AiSession>)
    requires
        sessions_fit(sessions),
    ensures
        forall|k: int|
            0 <= k < command_positions(sessions).len() ==> {
                let c = #[trigger] command_positions(sessions)[k];
                c.session_index < sessions.len() && c.item_index < sessions[c.session_index as int].items@.len()
                    && sessions[c.session_index as int].items@[c.item_index as int].kind == AiItemKind::Command
            },
    decreases sessions.len(),
{
    if sessions.len() > 0 {
        let front = sessions.drop_last();
        lemma_command_positions_valid(front);
        let s = (sessions.len() - 1) as usize;
        lemma_command_items_valid(sessions.last().items@, s);
        let a = command_positions(front);
        let b = command_items(sessions.last().items@, s);
        assert forall|k: int| 0 <= k < (a + b).len() implies {
            let c = #[trigger] (a + b)[k];
            c.session_index < sessions.len() && c.item_index < sessions[c.session_index as int].items@.len()
                && sessions[c.session_index as int].items@[c.item_index as int].kind == AiItemKind::Command
        } by {
            if k < a.len() {
                let c = a[k];
                assert(front[c.session_index as int] == sessions[c.session_index as int]);
            } else {
                let c = b[k - a.len()];
                assert(c == (a + b)[k]);
            }
        }
    }
}

/// Everything the history files held, with the orders the pickers use.
#[derive(Debug, Clone, PartialEq, Eq)]
pub struct HistoryStore {
    pub regular: Vec<HistoryEntry>,
    pub regular_newest_indices: Vec<usize>,
    pub drafts: Vec<DraftEntry>,
    pub ai_sessions: Vec<AiSession>,
    pub ai_command_indices: Vec<AiCommandIndex>,
    pub notes: Vec<NoteEntry>,
    pub errors: Vec<JsonlLineError>,
}

impl HistoryStore {
    /// The indices are those of the entries and sessions it holds.
    pub open spec fn wf(&self) -> bool {
        &&& self.regular_newest_indices@.len() == self.regular@.len()
        &&& forall|k: int|
            0 <= k < self.regular@.len() ==> #[trigger] self.regular_newest_indices@[k] == self.regular@.len() - 1 - k
        &&& self.ai_command_indices@ == command_positions(self.ai_sessions@)
        &&& sessions_fit(self.ai_sessions@)
    }

    /// The store for what was read from the regular, draft and AI history
    /// files and the notes file; the errors of all four are kept in that
    /// order.
    pub fn from_loads(
        regular: JsonlLoad<HistoryEntry>,
        drafts: JsonlLoad<DraftEntry>,
        ai_sessions: JsonlLoad<AiSession>,
        notes: JsonlLoad<NoteEntry>,
    ) -> (r: Self)
        ensures
            r.wf(),
            r.regular@ == regular.items@,
            r.drafts@ == drafts.items@,
            r.ai_sessions@ == ai_sessions.items@,
            r.notes@ == notes.items@,
            r.errors@ == regular.errors@ + drafts.errors@ + ai_sessions.errors@ + notes.errors@,
    {
        let regular_newest_indices = newest_first_indices(regular.items.len());
        let ai_command_indices = ai_command_indices(ai_sessions.items.as_slice());
        let mut errors: Vec<JsonlLineError> = Vec::new();
        let JsonlLoad { items: regular_items, errors: mut e1 } = regular;
        let JsonlLoad { items: draft_items, errors: mut e2 } = drafts;
        let JsonlLoad { items: ai_items, errors: mut e3 } = ai_sessions;
        let JsonlLoad { items: note_items, errors: mut e4 } = notes;
        errors.append(&mut e1);
        errors.append(&mut e2);
        errors.append(&mut e3);
        errors.append(&mut e4);
        HistoryStore {
            regular: regular_items,
            regular_newest_indices,
            drafts: draft_items,
            ai_sessions: ai_items,
            ai_command_indices,
            notes: note_items,
            errors,
        }
    }

    /// The entry that is `index`-th newest.
    pub fn regular_by_newest_index(&self, index: usize) -> (r: Option<&HistoryEntry>)
        requires
            self.wf(),
        ensures
            index < self.regular@.len() ==> r == Some(&self.regular@[self.regular@.len() - 1 - index]),
            index >= self.regular@.len() ==> r is None,
    {
        if index < self.regular_newest_indices.len() {
            let i = self.regular_newest_indices[index];
            Some(&self.regular[i])
        } else {
            None
        }
    }

    /// The entries, newest first.
    pub fn regular_newest(&self) -> (r: Vec<&HistoryEntry>)
        requires
            self.wf(),
        ensures
            r@.len() == self.regular@.len(),
            forall|k: int| 0 <= k < r@.len() ==> #[trigger] r@[k] == &self.regular@[self.regular@.len() - 1 - k],
    {
        let mut out: Vec<&HistoryEntry> = Vec::new();
        let mut k: usize = 0;
        while k < self.regular_newest_indices.len()
            invariant
                self.wf(),
                k <= self.regular@.len(),
                out@.len() == k,
                forall|j: int| 0 <= j < k ==> #[trigger] out@[j] == &self.regular@[self.regular@.len() - 1 - j],
            decreases self.regular@.len() - k,
        {
            let i = self.regular_newest_indices[k];
            out.push(&self.regular[i]);
            k = k + 1;
        }
        out
    }

    /// The `index`-th command that the AI suggested, with its session.
    pub fn ai_command_by_index(&self, index: usize) -> (r: Option<(&AiSession, &AiItem)>)
        requires
            self.wf(),
        ensures
            index < self.ai_command_indices@.len() ==> {
                let c = self.ai_command_indices@[index as int];
                &&& r matches Some(p)
                &&& p.0 == &self.ai_sessions@[c.session_index as int]
                &&& p.1 == &self.ai_sessions@[c.session_index as int].items@[c.item_index as int]
                &&& p.1.kind == AiItemKind::Command
            },
            index >= self.ai_command_indices@.len() ==> r is None,
    {
        if index < self.ai_command_indices.len() {
            proof {
                lemma_command_positions_valid(self.ai_sessions@);
            }
            let c = self.ai_command_indices[index];
            assert(c == command_positions(self.ai_sessions@)[index as int]);
            let session = &self.ai_sessions[c.session_index];
            Some((session, &session.items[c.item_index]))
        } else {
            None
        }
    }

    /// The commands that the AI suggested, in order, with their sessions.
    pub fn ai_commands(&self) -> (r: Vec<(&AiSession, &AiItem)>)
        requires
            self.wf(),
        ensures
            r@.len() == self.ai_command_indices@.len(),
            forall|k: int|
                0 <= k < r@.len() ==> {
                    let c = self.ai_command_indices@[k];
                    &&& (#[trigger] r@[k]).0 == &self.ai_sessions@[c.session_index as int]
                    &&& r@[k].1 == &self.ai_sessions@[c.session_index as int].items@[c.item_index as int]
                },
    {
        proof {
            lemma_command_positions_valid(self.ai_sessions@);
        }
        let mut out: Vec<(&AiSession, &AiItem)> = Vec::new();
        let mut k: usize = 0;
        while k < self.ai_command_indices.len()
            invariant
                self.wf(),
                k <= self.ai_command_indices@.len(),
                out@.len() == k,
                forall|j: int|
                    0 <= j < command_positions(self.ai_sessions@).len() ==> {
                        let c = #[trigger] command_positions(self.ai_sessions@)[j];
                        c.session_index < self.ai_sessions@.len() && c.item_index
                            < self.ai_sessions@[c.session_index as int].items@.len()
                    },
                forall|j: int|
                    0 <= j < k ==> {
                        let c = self.ai_command_indices@[j];
                        &&& (#[trigger] out@[j]).0 == &self.ai_sessions@[c.session_index as int]
                        &&& out@[j].1 == &self.ai_sessions@[c.session_index as int].items@[c.item_index as int]
                    },
            decreases self.ai_command_indices@.len() - k,
        {
            let c = self.ai_command_indices[k];
            assert(c == command_positions(self.ai_sessions@)[k as int]);
            let session = &self.ai_sessions[c.session_index];
            out.push((session, &session.items[c.item_index]));
            k = k + 1;
        }
        out
    }
}

// ---------------------------------------------------------------------
// Trimming the history
// ---------------------------------------------------------------------

/// The entries that trimming keeps: the last `max_entries`.
pub open spec fn keep_from(len: nat, max_entries: nat) -> nat {
    if len > max_entries {
        (len - max_entries) as nat
    } else {
        0
    }
}

/// Trimming items `0..n` of a session, newest first: each command takes
/// one of `budget`, commands past it go, other items stay. The kept item
/// positions in order, the budget left, and whether a command was kept.
pub open spec fn kept_items(items: Seq<AiItem>, n: int, budget: nat) -> (Seq<int>, nat, bool)
    decreases n,
{
    if n <= 0 {
        (seq![], budget, false)
    } else {
        let i = n - 1;
        if items[i].kind == AiItemKind::Command {
            if budget == 0 {
                kept_items(items, n - 1, 0)
            } else {
                let (k, b, _c) = kept_items(items, n - 1, (budget - 1) as nat);
                (k.push(i), b, true)
            }
        } else {
            let (k, b, c) = kept_items(items, n - 1, budget);
            (k.push(i), b, c)
        }
    }
}

/// Trimming sessions `0..n`, newest first: a session stays, with its kept
/// items, when it keeps a command.
pub open spec fn kept_sessions(sessions: Seq<AiSession>, n: int, budget: nat) -> (Seq<(int, Seq<int>)>, nat)
    decreases n,
{
    if n <= 0 {
        (seq![], budget)
    } else {
        let s = n - 1;
        let (items, b1, kept) = kept_items(sessions[s].items@, sessions[s].items@.len() as int, budget);
        let (rest, b2) = kept_sessions(sessions, n - 1, b1);
        (
            if kept {
                rest.push((s, items))
            } else {
                rest
            },
            b2,
        )
    }
}

/// How many of the items at `idx` are commands.
pub open spec fn commands_in(items: Seq<AiItem>, idx: Seq<int>) -> nat
    decreases idx.len(),
{
    if idx.len() == 0 {
        0
    } else {
        commands_in(items, idx.drop_last()) + if items[idx.last()].kind == AiItemKind::Command {
            1nat
        } else {
            0nat
        }
    }
}

/// How many commands the kept sessions of a trimming plan hold.
pub open spec fn plan_commands(sessions: Seq<AiSession>, plan: Seq<(int, Seq<int>)>) -> nat
    decreases plan.len(),
{
    if plan.len() == 0 {
        0
    } else {
        plan_commands(sessions, plan.drop_last()) + commands_in(
            sessions[plan.last().0].items@,
            plan.last().1,
        )
    }
}

proof fn lemma_kept_items_budget(items: Seq<AiItem>, n: int, budget: nat)
    ensures
        commands_in(items, kept_items(items, n, budget).0) + kept_items(items, n, budget).1 == budget,
        !kept_items(items, n, budget).2 ==> commands_in(items, kept_items(items, n, budget).0) == 0,
    decreases n,
{
    if n > 0 {
        let i = n - 1;
        if items[i].kind == AiItemKind::Command {
            if budget == 0 {
                lemma_kept_items_budget(items, n - 1, 0);
            } else {
                lemma_kept_items_budget(items, n - 1, (budget - 1) as nat);
                let k = kept_items(items, n - 1, (budget - 1) as nat).0;
                assert(k.push(i).drop_last() =~= k);
            }
        } else {
            lemma_kept_items_budget(items, n - 1, budget);
            let k = kept_items(items, n - 1, budget).0;
            assert(k.push(i).drop_last() =~= k);
        }
    }
}

proof fn lemma_kept_sessions_budget(sessions: Seq<AiSession>, n: int, budget: nat)
    ensures
        plan_commands(sessions, kept_sessions(sessions, n, budget).0) + kept_sessions(sessions, n, budget).1
            == budget,
    decreases n,
{
    if n > 0 {
        let s = n - 1;
        let items = sessions[s].items@;
        let ki = kept_items(items, items.len() as int, budget);
        lemma_kept_items_budget(items, items.len() as int, budget);
        lemma_kept_sessions_budget(sessions, n - 1, ki.1);
        let rest = kept_sessions(sessions, n - 1, ki.1).0;
        assert(rest.push((s, ki.0)).drop_last() =~= rest);
    }
}

/// Trimming keeps at most `max_entries` commands in all: the kept regular
/// entries and the kept AI command items together.
pub proof fn trim_keeps_at_most_max_entries(regular_len: nat, sessions: Seq<AiSession>, max_entries: nat)
    ensures
        ({
            let kept_regular = regular_len - keep_from(regular_len, max_entries);
            let budget = (max_entries - kept_regular) as nat;
            kept_regular + plan_commands(sessions, kept_sessions(sessions, sessions.len() as int, budget).0)
                <= max_entries
        }),
{
    let kept_regular = regular_len - keep_from(regular_len, max_entries);
    let budget = (max_entries - kept_regular) as nat;
    lemma_kept_sessions_budget(sessions, sessions.len() as int, budget);
}

/// `out` is `src` with only the items at `idx`.
pub open spec fn session_with_items(out: AiSession, src: AiSession, idx: Seq<int>) -> bool {
    &&& out.id == src.id
    &&& out.t == src.t
    &&& out.prompt == src.prompt
    &&& out.ctx == src.ctx
    &&& out.model == src.model
    &&& out.items@.len() == idx.len()
    &&& forall|j: int| 0 <= j < idx.len() ==> #[trigger] out.items@[j] == src.items@[idx[j]]
}

impl AiItem {
    pub fn clone_item(&self) -> (r: Self)
        ensures
            r == *self,
    {
        AiItem {
            kind: self.kind,
            text: self.text.clone(),
            name: match &self.name {
                Some(n) => Some(n.clone()),
                None => None,
            },
        }
    }
}

fn trim_session_items(items: &Vec<AiItem>, budget: usize) -> (r: (Vec<AiItem>, usize, bool))
    ensures
        r.1 == kept_items(items@, items@.len() as int, budget as nat).1,
        r.2 == kept_items(items@, items@.len() as int, budget as nat).2,
        r.0@.len() == kept_items(items@, items@.len() as int, budget as nat).0.len(),
        forall|j: int|
            0 <= j < r.0@.len() ==> #[trigger] r.0@[j] == items@[kept_items(items@, items@.len() as int, budget as nat).0[j]],
{
    let ghost total = kept_items(items@, items@.len() as int, budget as nat);
    let mut n: usize = items.len();
    let mut b: usize = budget;
    let mut acc_rev: Vec<usize> = Vec::new();
    let mut kept = false;
    while n > 0
        invariant
            n <= items@.len(),
            total == kept_items(items@, items@.len() as int, budget as nat),
            total.0 == kept_items(items@, n as int, b as nat).0 + acc_rev@.reverse().map_values(|i: usize| i as int),
            total.1 == kept_items(items@, n as int, b as nat).1,
            total.2 == (kept_items(items@, n as int, b as nat).2 || kept),
            forall|j: int| 0 <= j < acc_rev@.len() ==> #[trigger] acc_rev@[j] < items@.len(),
        decreases n,
    {
        let i = n - 1;
        let ghost before = acc_rev@;
        let ghost prev = kept_items(items@, n as int, b as nat);
        if items[i].kind == AiItemKind::Command {
            if b == 0 {
                assert(prev == kept_items(items@, i as int, 0));
            } else {
                let ghost sub = kept_items(items@, i as int, (b - 1) as nat);
                assert(prev.0 == sub.0.push(i as int));
                b = b - 1;
                acc_rev.push(i);
                kept = true;
                assert(acc_rev@.reverse().map_values(|x: usize| x as int) =~= seq![i as int] + before.reverse().map_values(|x: usize| x as int));
                assert(sub.0.push(i as int) + before.reverse().map_values(|x: usize| x as int) =~= sub.0 + acc_rev@.reverse().map_values(|x: usize| x as int));
            }
        } else {
            let ghost sub = kept_items(items@, i as int, b as nat);
            assert(prev.0 == sub.0.push(i as int));
            acc_rev.push(i);
            assert(acc_rev@.reverse().map_values(|x: usize| x as int) =~= seq![i as int] + before.reverse().map_values(|x: usize| x as int));
            assert(sub.0.push(i as int) + before.reverse().map_values(|x: usize| x as int) =~= sub.0 + acc_rev@.reverse().map_values(|x: usize| x as int));
        }
        n = i;
    }
    let ghost idx = acc_rev@.reverse().map_values(|i: usize| i as int);
    assert(kept_items(items@, 0, b as nat).0 =~= Seq::<int>::empty());
    assert(total.0 =~= idx);
    let mut out: Vec<AiItem> = Vec::new();
    let mut k: usize = acc_rev.len();
    while k > 0
        invariant
            k <= acc_rev@.len(),
            idx == acc_rev@.reverse().map_values(|i: usize| i as int),
            forall|j: int| 0 <= j < acc_rev@.len() ==> #[trigger] acc_rev@[j] < items@.len(),
            out@.len() == acc_rev@.len() - k,
            forall|j: int| 0 <= j < out@.len() ==> #[trigger] out@[j] == items@[idx[j]],
        decreases k,
    {
        let i = acc_rev[k - 1];
        let item = items[i].clone_item();
        out.push(item);
        assert(idx[out@.len() - 1] == acc_rev@[k - 1] as int);
        k = k - 1;
    }
    (out, b, kept)
}

fn copy_session(src: &AiSession, items: Vec<AiItem>) -> (r: AiSession)
    ensures
        r.id == src.id,
        r.t == src.t,
        r.prompt == src.prompt,
        r.ctx == src.ctx,
        r.model == src.model,
        r.items == items,
{
    AiSession {
        id: src.id.clone(),
        t: src.t,
        prompt: src.prompt.clone(),
        ctx: src.ctx,
        model: src.model.clone(),
        items,
    }
}

/// Trims the history to `max_entries` commands: the newest regular
/// entries first, then, with what is left, the newest AI commands; AI
/// sessions without a kept command go.
pub fn trim_combined_items(regular: &Vec<HistoryEntry>, ai_sessions: &Vec<AiSession>, max_entries: usize) -> (r: (
    Vec<HistoryEntry>,
    Vec<AiSession>,
))
    ensures
        ({
            let from = keep_from(regular@.len(), max_entries as nat);
            &&& r.0@.len() == regular@.len() - from
            &&& forall|k: int| 0 <= k < r.0@.len() ==> #[trigger] r.0@[k] == regular@[from + k]
        }),
        ({
            let budget = (max_entries - (regular@.len() - keep_from(regular@.len(), max_entries as nat))) as nat;
            let plan = kept_sessions(ai_sessions@, ai_sessions@.len() as int, budget).0;
            &&& r.1@.len() == plan.len()
            &&& forall|k: int|
                0 <= k < plan.len() ==> session_with_items(
                    #[trigger] r.1@[k],
                    ai_sessions@[plan[k].0],
                    plan[k].1,
                )
        }),
{
    let from = if regular.len() > max_entries {
        regular.len() - max_entries
    } else {
        0
    };
    let mut kept_regular: Vec<HistoryEntry> = Vec::new();
    let mut i = from;
    while i < regular.len()
        invariant
            from <= i <= regular@.len(),
            kept_regular@.len() == i - from,
            forall|k: int| 0 <= k < kept_regular@.len() ==> #[trigger] kept_regular@[k] == regular@[from + k],
        decreases regular@.len() - i,
    {
        kept_regular.push(regular[i].clone_entry());
        i = i + 1;
    }
    let budget0 = max_entries - kept_regular.len();
    let ghost total = kept_sessions(ai_sessions@, ai_sessions@.len() as int, budget0 as nat);
    let mut n: usize = ai_sessions.len();
    let mut b: usize = budget0;
    let mut acc_rev: Vec<AiSession> = Vec::new();
    let ghost mut plan_rev: Seq<(int, Seq<int>)> = seq![];
    while n > 0
        invariant
            n <= ai_sessions@.len(),
            total == kept_sessions(ai_sessions@, ai_sessions@.len() as int, budget0 as nat),
            total.0 == kept_sessions(ai_sessions@, n as int, b as nat).0 + plan_rev.reverse(),
            total.1 == kept_sessions(ai_sessions@, n as int, b as nat).1,
            acc_rev@.len() == plan_rev.len(),
            forall|j: int|
                0 <= j < plan_rev.len() ==> session_with_items(
                    #[trigger] acc_rev@[j],
                    ai_sessions@[plan_rev[j].0],
                    plan_rev[j].1,
                ),
        decreases n,
    {
        let s = n - 1;
        let (items, b1, kept) = trim_session_items(&ai_sessions[s].items, b);
        let ghost ki = kept_items(ai_sessions@[s as int].items@, ai_sessions@[s as int].items@.len() as int, b as nat);
        let ghost before = plan_rev;
        if kept {
            let session = copy_session(&ai_sessions[s], items);
            acc_rev.push(session);
            proof {
                plan_rev = plan_rev.push((s as int, ki.0));
                assert(plan_rev.reverse() =~= seq![(s as int, ki.0)] + before.reverse());
                let rest = kept_sessions(ai_sessions@, s as int, b1 as nat).0;
                assert(rest.push((s as int, ki.0)) + before.reverse() =~= rest + plan_rev.reverse());
            }
        }
        b = b1;
        n = s;
    }
    assert(kept_sessions(ai_sessions@, 0, b as nat).0 =~= Seq::<(int, Seq<int>)>::empty());
    assert(total.0 =~= plan_rev.reverse());
    let mut out: Vec<AiSession> = Vec::new();
    let mut k: usize = acc_rev.len();
    let ghost plan = plan_rev.reverse();
    let ghost all = acc_rev@;
    while k > 0
        invariant
            k <= all.len(),
            acc_rev@ == all.take(k as int),
            all.len() == plan_rev.len(),
            plan == plan_rev.reverse(),
            forall|j: int|
                0 <= j < plan_rev.len() ==> session_with_items(
                    #[trigger] all[j],
                    ai_sessions@[plan_rev[j].0],
                    plan_rev[j].1,
                ),
            out@.len() == all.len() - k,
            forall|j: int|
                0 <= j < out@.len() ==> session_with_items(#[trigger] out@[j], ai_sessions@[plan[j].0], plan[j].1),
        decreases k,
    {
        let session = acc_rev.pop().unwrap();
        assert(session == all[k - 1]);
        assert(acc_rev@ =~= all.take(k - 1));
        out.push(session);
        assert(plan[out@.len() - 1] == plan_rev[k - 1]);
        k = k - 1;
    }
    (kept_regular, out)
}

/// The newest `max_entries` entries, oldest first.
pub fn trim_regular_items(items: &Vec<HistoryEntry>, max_entries: usize) -> (r: Vec<HistoryEntry>)
    ensures
        r@ == items@.skip(keep_from(items@.len(), max_entries as nat) as int),
{
    let from = if items.len() > max_entries {
        items.len() - max_entries
    } else {
        0
    };
    let mut out: Vec<HistoryEntry> = Vec::new();
    let mut i = from;
    while i < items.len()
        invariant
            from <= i <= items@.len(),
            out@ == items@.subrange(from as int, i as int),
        decreases items@.len() - i,
    {
        out.push(items[i].clone_entry());
        i = i + 1;
        assert(out@ =~= items@.subrange(from as int, i as int));
    }
    assert(out@ =~= items@.skip(from as int));
    out
}

} // verus!
