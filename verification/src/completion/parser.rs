//! Shell-like lexing of a command line: where the words are, which token
//! the cursor is in, and what a word means once its quotes and escapes are
//! removed.
use vstd::prelude::*;
use crate::text::{
    byte_len, byte_offset, char_index_at_or_before, floor_index, has_infix, has_prefix,
    is_whitespace, is_ws, lemma_byte_offset_full, lemma_byte_offset_mono, prefix_byte_len,
    str_chars, chars_range_string, sub_chars, starts_with, contains_char,
};
use super::types::TokenContext;

verus! {

/// Lexer state after a prefix of a line: the open quote, a pending
/// backslash, whether the current token has any character, where it
/// started (a character index), and whether a token came before it.
pub struct Lex {
    pub quote: Option<char>,
    pub escaped: bool,
    pub seen: bool,
    pub start: int,
    pub before: bool,
}

pub open spec fn lex_init() -> Lex {
    Lex { quote: None, escaped: false, seen: false, start: 0, before: false }
}

/// Whether `ch`, read in state `st`, separates tokens.
pub open spec fn splits(st: Lex, ch: char) -> bool {
    !st.escaped && st.quote is None && is_ws(ch)
}

/// One lexer step on the character `ch` at index `i`.
pub open spec fn lex_step(st: Lex, ch: char, i: int) -> Lex {
    if st.escaped {
        Lex { quote: st.quote, escaped: false, seen: true, start: st.start, before: st.before }
    } else {
        match st.quote {
            Some(q) => if ch == q {
                Lex { quote: None, escaped: false, seen: true, start: st.start, before: st.before }
            } else {
                Lex {
                    quote: st.quote,
                    escaped: ch == '\\' && q == '"',
                    seen: true,
                    start: st.start,
                    before: st.before,
                }
            },
            None => if ch == '\\' {
                Lex { quote: None, escaped: true, seen: true, start: st.start, before: st.before }
            } else if ch == '\'' || ch == '"' {
                Lex { quote: Some(ch), escaped: false, seen: true, start: st.start, before: st.before }
            } else if is_ws(ch) {
                Lex { quote: None, escaped: false, seen: false, start: i + 1, before: st.before || st.seen }
            } else {
                Lex { quote: None, escaped: false, seen: true, start: st.start, before: st.before }
            },
        }
    }
}

/// Lexer state after the first `n` characters of `s`.
pub open spec fn lex(s: Seq<char>, n: int) -> Lex
    decreases n,
{
    if n <= 0 || n > s.len() {
        lex_init()
    } else {
        lex_step(lex(s, n - 1), s[n - 1], n - 1)
    }
}

/// The character ranges of the words that end before character `n`.
pub open spec fn closed_ranges(s: Seq<char>, n: int) -> Seq<(int, int)>
    decreases n,
{
    if n <= 0 || n > s.len() {
        seq![]
    } else {
        let st = lex(s, n - 1);
        let prev = closed_ranges(s, n - 1);
        if splits(st, s[n - 1]) && st.seen {
            prev.push((st.start, n - 1))
        } else {
            prev
        }
    }
}

/// The character ranges of the shell words of `s`, in order.
pub open spec fn word_ranges(s: Seq<char>) -> Seq<(int, int)> {
    let st = lex(s, s.len() as int);
    if st.seen {
        closed_ranges(s, s.len() as int).push((st.start, s.len() as int))
    } else {
        closed_ranges(s, s.len() as int)
    }
}

/// Whether `c` may follow a backslash inside double quotes and be kept
/// literally.
pub open spec fn dq_escapable(c: char) -> bool {
    c == '$' || c == '`' || c == '"' || c == '\\'
}

/// The value of a shell word after removing quotes and escapes, reading
/// `s` with the open quote `q`.
pub open spec fn unquote(s: Seq<char>, q: Option<char>) -> Seq<char>
    decreases s.len(),
{
    if s.len() == 0 {
        seq![]
    } else {
        let ch = s[0];
        let rest = s.drop_first();
        match q {
            Some(qc) => if qc == '\'' {
                if ch == '\'' {
                    unquote(rest, None)
                } else {
                    seq![ch] + unquote(rest, q)
                }
            } else if qc == '"' {
                if ch == '"' {
                    unquote(rest, None)
                } else if ch == '\\' && rest.len() > 0 && dq_escapable(rest[0]) {
                    seq![rest[0]] + unquote(rest.drop_first(), q)
                } else if ch == '\\' && rest.len() > 0 && rest[0] == '\n' {
                    unquote(rest.drop_first(), q)
                } else {
                    seq![ch] + unquote(rest, q)
                }
            } else {
                seq![ch] + unquote(rest, q)
            },
            None => if ch == '\'' || ch == '"' {
                unquote(rest, Some(ch))
            } else if ch == '\\' {
                if rest.len() == 0 {
                    seq![ch]
                } else if rest[0] == '\n' {
                    unquote(rest.drop_first(), None)
                } else {
                    seq![rest[0]] + unquote(rest.drop_first(), None)
                }
            } else {
                seq![ch] + unquote(rest, None)
            },
        }
    }
}

/// The value of the shell word written `raw`.
pub open spec fn word_value(raw: Seq<char>) -> Seq<char> {
    unquote(raw, None)
}

/// No double quote and no backslash.
pub open spec fn plain_in_double_quotes(x: Seq<char>) -> bool {
    forall|i: int| 0 <= i < x.len() ==> #[trigger] x[i] != '"' && x[i] != '\\'
}

proof fn lemma_unquote_plain_prefix(x: Seq<char>, rest: Seq<char>)
    requires
        plain_in_double_quotes(x),
    ensures
        unquote(x + rest, Some('"')) == x + unquote(rest, Some('"')),
    decreases x.len(),
{
    if x.len() == 0 {
        assert(x + rest =~= rest);
        assert(x + unquote(rest, Some('"')) =~= unquote(rest, Some('"')));
    } else {
        let s = x + rest;
        let x1 = x.drop_first();
        assert(s[0] == x[0]);
        assert(x[0] != '"' && x[0] != '\\');
        assert(plain_in_double_quotes(x1)) by {
            assert forall|i: int| 0 <= i < x1.len() implies #[trigger] x1[i] != '"' && x1[i] != '\\' by {
                assert(x1[i] == x[i + 1]);
            }
        }
        assert(s.drop_first() =~= x1 + rest);
        lemma_unquote_plain_prefix(x1, rest);
        assert(x =~= seq![x[0]] + x1);
        assert(seq![x[0]] + (x1 + unquote(rest, Some('"'))) =~= x + unquote(rest, Some('"')));
    }
}

/// Inside double quotes, a backslash before `$`, `` ` ``, `"` or `\`
/// stands for that character alone: the word `"x\cy"` has the value
/// `xcy`, one character where the raw text has two (so `"a\\b"` is
/// `a\b`).
pub proof fn backslash_escapes_in_double_quotes(x: Seq<char>, c: char, y: Seq<char>)
    requires
        c == '$' || c == '`' || c == '"' || c == '\\',
        plain_in_double_quotes(x),
        plain_in_double_quotes(y),
    ensures
        word_value(seq!['"'] + x + seq!['\\', c] + y + seq!['"']) == x + seq![c] + y,
{
    let raw = seq!['"'] + x + seq!['\\', c] + y + seq!['"'];
    let tail = seq!['\\', c] + y + seq!['"'];
    assert(raw[0] == '"');
    assert(raw.drop_first() =~= x + tail);
    lemma_unquote_plain_prefix(x, tail);
    assert(tail[0] == '\\');
    assert(tail.drop_first()[0] == c);
    assert(tail.drop_first().drop_first() =~= y + seq!['"']);
    lemma_unquote_plain_prefix(y, seq!['"']);
    let q = seq!['"'];
    assert(q[0] == '"');
    assert(q.drop_first().len() == 0);
    assert(unquote(q.drop_first(), None) =~= Seq::<char>::empty());
    assert(unquote(q, Some('"')) =~= Seq::<char>::empty());
    assert(unquote(tail, Some('"')) =~= seq![c] + (y + Seq::<char>::empty()));
    assert(x + (seq![c] + (y + Seq::<char>::empty())) =~= x + seq![c] + y);
}

/// The raw texts of the shell words of `s`.
pub open spec fn raw_words(s: Seq<char>) -> Seq<Seq<char>> {
    word_ranges(s).map_values(|r: (int, int)| s.subrange(r.0, r.1))
}

/// The values of the shell words of `s`.
pub open spec fn word_values(s: Seq<char>) -> Seq<Seq<char>> {
    word_ranges(s).map_values(|r: (int, int)| word_value(s.subrange(r.0, r.1)))
}

/// A token is path-like when, after its opening quotes, it starts with
/// `/`, `./`, `../` or `~`, or contains a `/`.
pub open spec fn path_like(t: Seq<char>) -> bool {
    let u = t.skip(lead_quotes(t) as int);
    has_prefix(u, seq!['/']) || has_prefix(u, seq!['.', '/']) || has_prefix(u, seq!['.', '.', '/'])
        || has_prefix(u, seq!['~']) || u.contains('/')
}

/// Number of leading quote characters.
pub open spec fn lead_quotes(t: Seq<char>) -> nat
    decreases t.len(),
{
    if t.len() > 0 && (t[0] == '\'' || t[0] == '"') {
        1 + lead_quotes(t.drop_first())
    } else {
        0
    }
}

/// The token context at character index `c` of `s`: where the token
/// starts, whether it is the first token, and the open quote.
pub open spec fn token_at(s: Seq<char>, c: int) -> Lex {
    lex(s, c)
}

pub proof fn lemma_lex_bounds(s: Seq<char>, n: int)
    requires
        0 <= n <= s.len(),
    ensures
        0 <= lex(s, n).start <= n,
        lex(s, n).quote is None || lex(s, n).quote == Some('\'') || lex(s, n).quote == Some('"'),
        lex(s, n).escaped ==> lex(s, n).seen,
        !lex(s, n).seen ==> lex(s, n).quote is None && !lex(s, n).escaped,
    decreases n,
{
    if n > 0 {
        lemma_lex_bounds(s, n - 1);
    }
}

/// The exec lexer state.
pub struct Lexer {
    pub quote: Option<char>,
    pub escaped: bool,
    pub seen: bool,
    pub start: usize,
    pub before: bool,
}

impl Lexer {
    pub open spec fn view(self) -> Lex {
        Lex {
            quote: self.quote,
            escaped: self.escaped,
            seen: self.seen,
            start: self.start as int,
            before: self.before,
        }
    }

    pub fn new() -> (r: Self)
        ensures
            r.view() == lex_init(),
    {
        Lexer { quote: None, escaped: false, seen: false, start: 0, before: false }
    }

    /// Whether `ch` separates tokens in the current state.
    pub fn splits(&self, ch: char) -> (r: bool)
        ensures
            r == splits(self.view(), ch),
    {
        !self.escaped && self.quote.is_none() && is_whitespace(ch)
    }

    /// Reads the character `ch` at index `i`.
    pub fn step(&mut self, ch: char, i: usize)
        requires
            i < usize::MAX,
        ensures
            final(self).view() == lex_step(old(self).view(), ch, i as int),
    {
        if self.escaped {
            self.escaped = false;
            self.seen = true;
            return ;
        }
        match self.quote {
            Some(q) => {
                if ch == q {
                    self.quote = None;
                } else if ch == '\\' && q == '"' {
                    self.escaped = true;
                }
                self.seen = true;
            },
            None => {
                if ch == '\\' {
                    self.escaped = true;
                    self.seen = true;
                } else if ch == '\'' || ch == '"' {
                    self.quote = Some(ch);
                    self.seen = true;
                } else if is_whitespace(ch) {
                    self.before = self.before || self.seen;
                    self.seen = false;
                    self.start = i + 1;
                } else {
                    self.seen = true;
                }
            },
        }
    }
}

/// Lexes the first `n` characters of `v`.
pub fn lex_prefix(v: &[char], n: usize) -> (r: Lexer)
    requires
        n <= v.len(),
    ensures
        r.view() == lex(v@, n as int),
{
    let mut st = Lexer::new();
    let mut i: usize = 0;
    while i < n
        invariant
            i <= n <= v.len(),
            st.view() == lex(v@, i as int),
        decreases n - i,
    {
        st.step(v[i], i);
        i = i + 1;
    }
    st
}

/// The character ranges of the shell words of `v`.
pub fn command_word_ranges(v: &[char]) -> (r: Vec<(usize, usize)>)
    ensures
        r@.len() == word_ranges(v@).len(),
        forall|k: int|
            0 <= k < r@.len() ==> (#[trigger] r@[k]).0 == word_ranges(v@)[k].0 && r@[k].1
                == word_ranges(v@)[k].1,
        forall|k: int| 0 <= k < r@.len() ==> (#[trigger] r@[k]).0 <= r@[k].1 <= v.len(),
{
    let mut st = Lexer::new();
    let mut r: Vec<(usize, usize)> = Vec::new();
    let mut i: usize = 0;
    while i < v.len()
        invariant
            i <= v.len(),
            st.view() == lex(v@, i as int),
            st.start <= i,
            r@.len() == closed_ranges(v@, i as int).len(),
            forall|k: int|
                0 <= k < r@.len() ==> (#[trigger] r@[k]).0 == closed_ranges(v@, i as int)[k].0
                    && r@[k].1 == closed_ranges(v@, i as int)[k].1,
            forall|k: int| 0 <= k < r@.len() ==> (#[trigger] r@[k]).0 <= r@[k].1 <= i,
        decreases v.len() - i,
    {
        let ch = v[i];
        if st.splits(ch) && st.seen {
            r.push((st.start, i));
        }
        st.step(ch, i);
        i = i + 1;
    }
    if st.seen {
        r.push((st.start, v.len()));
    }
    r
}

/// A shell word: its source text, its value, and its byte span.
#[derive(Debug, Clone, PartialEq, Eq)]
pub struct ShellWord {
    pub raw: String,
    pub value: String,
    pub start: usize,
    pub end: usize,
}

/// The value of the shell word `raw`.
pub fn unquote_chars(raw: &[char]) -> (r: Vec<char>)
    ensures
        r@ == word_value(raw@),
{
    let mut out: Vec<char> = Vec::new();
    let mut q: Option<char> = None;
    let mut i: usize = 0;
    assert(raw@.skip(0) =~= raw@);
    while i < raw.len()
        invariant
            i <= raw.len(),
            out@ + unquote(raw@.skip(i as int), q) == word_value(raw@),
        decreases raw.len() - i,
    {
        let ghost s = raw@.skip(i as int);
        let ch = raw[i];
        proof {
            assert(s[0] == ch);
            assert(s.drop_first() =~= raw@.skip(i + 1));
            if i + 1 < raw.len() {
                assert(s.drop_first()[0] == raw@[i + 1]);
                assert(s.drop_first().drop_first() =~= raw@.skip(i + 2));
            }
        }
        match q {
            Some(qc) => {
                if qc == '\'' {
                    if ch == '\'' {
                        q = None;
                    } else {
                        out.push(ch);
                    }
                    i = i + 1;
                } else if qc == '"' {
                    if ch == '"' {
                        q = None;
                        i = i + 1;
                    } else if ch == '\\' && i + 1 < raw.len() && (raw[i + 1] == '$' || raw[i + 1]
                        == '`' || raw[i + 1] == '"' || raw[i + 1] == '\\') {
                        out.push(raw[i + 1]);
                        i = i + 2;
                    } else if ch == '\\' && i + 1 < raw.len() && raw[i + 1] == '\n' {
                        i = i + 2;
                    } else {
                        out.push(ch);
                        i = i + 1;
                    }
                } else {
                    out.push(ch);
                    i = i + 1;
                }
            },
            None => {
                if ch == '\'' || ch == '"' {
                    q = Some(ch);
                    i = i + 1;
                } else if ch == '\\' {
                    if i + 1 == raw.len() {
                        out.push(ch);
                        i = i + 1;
                    } else if raw[i + 1] == '\n' {
                        i = i + 2;
                    } else {
                        out.push(raw[i + 1]);
                        i = i + 2;
                    }
                } else {
                    out.push(ch);
                    i = i + 1;
                }
            },
        }
        proof {
            assert(out@ + unquote(raw@.skip(i as int), q) =~= word_value(raw@));
        }
    }
    proof {
        assert(raw@.skip(i as int) =~= Seq::<char>::empty());
        assert(out@ + unquote(raw@.skip(i as int), q) =~= out@);
    }
    out
}

/// The value of a shell word.
pub fn shell_word_value(raw: &str) -> (r: String)
    ensures
        r@ == word_value(raw@),
{
    let v = str_chars(raw);
    let u = unquote_chars(v.as_slice());
    crate::text::chars_string(u.as_slice())
}

/// The shell words of `command`, with their raw text, value and byte span.
pub fn shell_like_words(command: &str) -> (r: Vec<ShellWord>)
    ensures
        r@.len() == word_ranges(command@).len(),
        forall|k: int|
            0 <= k < r@.len() ==> {
                let (a, b) = word_ranges(command@)[k];
                &&& (#[trigger] r@[k]).raw@ == command@.subrange(a, b)
                &&& r@[k].value@ == word_value(command@.subrange(a, b))
                &&& r@[k].start == byte_offset(command@, a)
                &&& r@[k].end == byte_offset(command@, b)
            },
{
    let v = str_chars(command);
    let ranges = command_word_ranges(v.as_slice());
    let mut r: Vec<ShellWord> = Vec::new();
    let mut k: usize = 0;
    while k < ranges.len()
        invariant
            k <= ranges@.len(),
            v@ == command@,
            byte_len(v@) <= usize::MAX,
            ranges@.len() == word_ranges(v@).len(),
            forall|j: int|
                0 <= j < ranges@.len() ==> (#[trigger] ranges@[j]).0 == word_ranges(v@)[j].0
                    && ranges@[j].1 == word_ranges(v@)[j].1,
            forall|j: int| 0 <= j < ranges@.len() ==> (#[trigger] ranges@[j]).0 <= ranges@[j].1 <= v.len(),
            r@.len() == k,
            forall|j: int|
                0 <= j < k ==> {
                    let (a, b) = word_ranges(command@)[j];
                    &&& (#[trigger] r@[j]).raw@ == command@.subrange(a, b)
                    &&& r@[j].value@ == word_value(command@.subrange(a, b))
                    &&& r@[j].start == byte_offset(command@, a)
                    &&& r@[j].end == byte_offset(command@, b)
                },
        decreases ranges.len() - k,
    {
        let (a, b) = ranges[k];
        let raw_chars = sub_chars(v.as_slice(), a, b);
        let value = unquote_chars(raw_chars.as_slice());
        let start = prefix_byte_len(v.as_slice(), a);
        let end = prefix_byte_len(v.as_slice(), b);
        r.push(
            ShellWord {
                raw: crate::text::chars_string(raw_chars.as_slice()),
                value: crate::text::chars_string(value.as_slice()),
                start,
                end,
            },
        );
        k = k + 1;
    }
    r
}

/// The values of the shell words of `command`.
pub fn split_shell_like_words(command: &str) -> (r: Vec<String>)
    ensures
        r@.len() == word_values(command@).len(),
        forall|k: int| 0 <= k < r@.len() ==> (#[trigger] r@[k])@ == word_values(command@)[k],
{
    let words = shell_like_words(command);
    let mut r: Vec<String> = Vec::new();
    let mut k: usize = 0;
    while k < words.len()
        invariant
            k <= words@.len(),
            words@.len() == word_ranges(command@).len(),
            forall|j: int|
                0 <= j < words@.len() ==> {
                    let (a, b) = word_ranges(command@)[j];
                    (#[trigger] words@[j]).value@ == word_value(command@.subrange(a, b))
                },
            r@.len() == k,
            forall|j: int| 0 <= j < k ==> (#[trigger] r@[j])@ == word_values(command@)[j],
        decreases words.len() - k,
    {
        r.push(words[k].value.clone());
        k = k + 1;
    }
    r
}

/// The shell words of `command` after the first one.
pub fn command_argument_words(command: &str) -> (r: Vec<ShellWord>)
    ensures
        word_ranges(command@).len() == 0 ==> r@.len() == 0,
        word_ranges(command@).len() > 0 ==> r@.len() == word_ranges(command@).len() - 1,
        forall|k: int|
            0 <= k < r@.len() ==> {
                let (a, b) = word_ranges(command@)[k + 1];
                &&& (#[trigger] r@[k]).raw@ == command@.subrange(a, b)
                &&& r@[k].value@ == word_value(command@.subrange(a, b))
            },
{
    let words = shell_like_words(command);
    let mut r: Vec<ShellWord> = Vec::new();
    let mut k: usize = 1;
    while k < words.len()
        invariant
            1 <= k,
            k <= words@.len() || words@.len() == 0,
            words@.len() == word_ranges(command@).len(),
            forall|j: int|
                0 <= j < words@.len() ==> {
                    let (a, b) = word_ranges(command@)[j];
                    &&& (#[trigger] words@[j]).raw@ == command@.subrange(a, b)
                    &&& words@[j].value@ == word_value(command@.subrange(a, b))
                },
            words@.len() > 0 ==> r@.len() == k - 1,
            words@.len() == 0 ==> r@.len() == 0,
            forall|j: int|
                0 <= j < r@.len() ==> {
                    let (a, b) = word_ranges(command@)[j + 1];
                    &&& (#[trigger] r@[j]).raw@ == command@.subrange(a, b)
                    &&& r@[j].value@ == word_value(command@.subrange(a, b))
                },
        decreases words.len() - k,
    {
        r.push(words[k].clone_word());
        k = k + 1;
    }
    r
}

impl ShellWord {
    /// A copy of the word.
    pub fn clone_word(&self) -> (r: ShellWord)
        ensures
            r.raw@ == self.raw@,
            r.value@ == self.value@,
            r.start == self.start,
            r.end == self.end,
    {
        ShellWord {
            raw: self.raw.clone(),
            value: self.value.clone(),
            start: self.start,
            end: self.end,
        }
    }
}

/// Whether `token` looks like a path.
pub fn is_path_like_token(token: &str) -> (r: bool)
    ensures
        r == path_like(token@),
{
    let v = str_chars(token);
    let mut q: usize = 0;
    assert(v@.skip(0) =~= v@);
    while q < v.len() && (v[q] == '\'' || v[q] == '"')
        invariant
            q <= v.len(),
            lead_quotes(v@) == q + lead_quotes(v@.skip(q as int)),
        decreases v.len() - q,
    {
        proof {
            let t = v@.skip(q as int);
            assert(t[0] == v@[q as int]);
            assert(t.drop_first() =~= v@.skip(q + 1));
        }
        q = q + 1;
    }
    proof {
        assert(v@.skip(0) =~= v@);
        let t = v@.skip(q as int);
        if q < v.len() {
            assert(t[0] == v@[q as int]);
        }
        assert(lead_quotes(t) == 0);
    }
    let u = sub_chars(v.as_slice(), q, v.len());
    assert(u@ == v@.skip(q as int));
    let slash: [char; 1] = ['/'];
    let dot_slash: [char; 2] = ['.', '/'];
    let dot_dot_slash: [char; 3] = ['.', '.', '/'];
    let tilde: [char; 1] = ['~'];
    proof {
        assert(slash@ =~= seq!['/']);
        assert(dot_slash@ =~= seq!['.', '/']);
        assert(dot_dot_slash@ =~= seq!['.', '.', '/']);
        assert(tilde@ =~= seq!['~']);
    }
    starts_with(u.as_slice(), slash.as_slice()) || starts_with(u.as_slice(), dot_slash.as_slice())
        || starts_with(u.as_slice(), dot_dot_slash.as_slice()) || starts_with(
        u.as_slice(),
        tilde.as_slice(),
    ) || contains_char(u.as_slice(), '/')
}

/// Byte offset of the character boundary at or before byte `cursor`.
pub fn previous_char_boundary(text: &str, cursor: usize) -> (r: usize)
    ensures
        r == byte_offset(text@, floor_index(text@, cursor as int)),
{
    let v = str_chars(text);
    let i = char_index_at_or_before(v.as_slice(), cursor);
    prefix_byte_len(v.as_slice(), i)
}

/// The text of the token that ends at byte `cursor` of `s`.
pub open spec fn token_text(s: Seq<char>, cursor: int) -> Seq<char> {
    let c = floor_index(s, cursor);
    s.subrange(lex(s, c).start, c)
}

/// The token that ends at the cursor.  The cursor is a byte offset; past
/// the end it means the end, and inside a character it means that
/// character's start.
pub fn current_token_context(line: &str, cursor: usize) -> (r: TokenContext)
    ensures
        ({
            let s = line@;
            let c = floor_index(s, cursor as int);
            let st = lex(s, c);
            &&& r.end == byte_offset(s, c)
            &&& r.start == byte_offset(s, st.start)
            &&& r.text@ == s.subrange(st.start, c)
            &&& r.is_first_token == !st.before
            &&& r.quote == st.quote
            &&& r.path_like == path_like(r.text@)
            &&& r.text@ == token_text(s, cursor as int)
        }),
{
    let v = str_chars(line);
    let c = char_index_at_or_before(v.as_slice(), cursor);
    let st = lex_prefix(v.as_slice(), c);
    proof {
        lemma_lex_bounds(v@, c as int);
    }
    let text = chars_range_string(v.as_slice(), st.start, c);
    let start = prefix_byte_len(v.as_slice(), st.start);
    let end = prefix_byte_len(v.as_slice(), c);
    let path_like = is_path_like_token(text.as_str());
    TokenContext {
        start,
        end,
        text,
        is_first_token: !st.before,
        quote: st.quote,
        path_like,
    }
}

/// The part of `suffix` up to its first unquoted whitespace that follows
/// a non-separating character, reading `suffix` in the lexer state that
/// `prefix` leaves.
pub open spec fn word_suffix_end(s: Seq<char>, i: int, seen: bool) -> int
    decreases s.len() - i,
{
    if i < 0 || i >= s.len() {
        s.len() as int
    } else if splits(lex(s, i), s[i]) {
        if seen {
            i
        } else {
            word_suffix_end(s, i + 1, false)
        }
    } else {
        word_suffix_end(s, i + 1, true)
    }
}

/// The end (a character index of `prefix + suffix`) of the first shell
/// word that `suffix` completes after `prefix`.
pub fn word_suffix_end_of(s: &[char], p: usize) -> (r: usize)
    requires
        p <= s.len(),
    ensures
        r == word_suffix_end(s@, p as int, false),
        p <= r <= s.len(),
{
    let mut st = lex_prefix(s, p);
    let mut i = p;
    let mut seen = false;
    while i < s.len()
        invariant
            p <= i <= s.len(),
            st.view() == lex(s@, i as int),
            word_suffix_end(s@, i as int, seen) == word_suffix_end(s@, p as int, false),
        decreases s.len() - i,
    {
        if st.splits(s[i]) {
            if seen {
                return i;
            }
        } else {
            seen = true;
        }
        st.step(s[i], i);
        i = i + 1;
    }
    i
}

/// The values of the shell words of `command` after the first one.
pub fn command_arguments(command: &str) -> (r: Vec<String>)
    ensures
        r@.len() == if word_values(command@).len() == 0 { 0 } else { word_values(command@).len() - 1 },
        forall|k: int| 0 <= k < r@.len() ==> (#[trigger] r@[k])@ == word_values(command@)[k + 1],
{
    let words = command_argument_words(command);
    let mut r: Vec<String> = Vec::new();
    let mut i: usize = 0;
    while i < words.len()
        invariant
            i <= words@.len(),
            word_ranges(command@).len() == 0 ==> words@.len() == 0,
            word_ranges(command@).len() > 0 ==> words@.len() == word_ranges(command@).len() - 1,
            forall|k: int|
                0 <= k < words@.len() ==> {
                    let (a, b) = word_ranges(command@)[k + 1];
                    (#[trigger] words@[k]).value@ == word_value(command@.subrange(a, b))
                },
            r@.len() == i,
            forall|k: int| 0 <= k < i ==> (#[trigger] r@[k])@ == word_values(command@)[k + 1],
        decreases words.len() - i,
    {
        r.push(words[i].value.clone());
        i = i + 1;
    }
    r
}

} // verus!
