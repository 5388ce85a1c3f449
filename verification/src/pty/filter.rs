//! Terminal control sequences in shell output: removing them, detecting
//! them, and dropping the repaint noise that fish writes around commands.
use vstd::prelude::*;
use crate::text::{
    chars_eq, chars_string, contains, has_infix, has_prefix, has_suffix, push_chars, starts_with, ends_with,
    str_chars, sub_chars, trim, trim_chars, trim_end, trim_end_chars, trim_start, trim_start_chars,
};

verus! {

broadcast use vstd::string::group_string_axioms;

/// A character that ends a CSI sequence (`@` to `~`).
pub open spec fn csi_final(c: char) -> bool {
    0x40 <= (c as u32) && (c as u32) <= 0x7e
}

/// Characters taken by the rest of a CSI sequence: up to and including its
/// final character, or all of `s`.
pub open spec fn csi_len(s: Seq<char>) -> nat
    decreases s.len(),
{
    if s.len() == 0 {
        0
    } else if csi_final(s[0]) {
        1
    } else {
        1 + csi_len(s.drop_first())
    }
}

/// Characters taken by the rest of an OSC-like string: up to and including
/// BEL or `ESC \`, or all of `s`.
pub open spec fn osc_len(s: Seq<char>) -> nat
    decreases s.len(),
{
    if s.len() == 0 {
        0
    } else if s[0] == '\u{7}' {
        1
    } else if s[0] == '\u{1b}' && s.len() > 1 && s[1] == '\\' {
        2
    } else {
        1 + osc_len(s.drop_first())
    }
}

pub open spec fn osc_intro(c: char) -> bool {
    c == ']' || c == 'P' || c == '^' || c == '_'
}

pub open spec fn charset_intro(c: char) -> bool {
    c == '(' || c == ')' || c == '*' || c == '+'
}

/// Number of characters that the escape sequence starting at `s[0]`
/// (an ESC) takes.
pub open spec fn escape_len(s: Seq<char>) -> nat {
    if s.len() <= 1 {
        s.len()
    } else if s[1] == '[' {
        2 + csi_len(s.skip(2))
    } else if osc_intro(s[1]) {
        2 + osc_len(s.skip(2))
    } else if charset_intro(s[1]) {
        if s.len() >= 3 {
            3
        } else {
            s.len()
        }
    } else {
        2
    }
}

/// `s` without escape sequences and control characters other than tab.
pub open spec fn strip_ctl(s: Seq<char>) -> Seq<char>
    decreases s.len(),
{
    if s.len() == 0 {
        seq![]
    } else if s[0] == '\u{1b}' {
        proof {
            lemma_escape_len(s);
        }
        strip_ctl(s.skip(escape_len(s) as int))
    } else if (s[0] as u32) < 0x20 && s[0] != '\t' {
        strip_ctl(s.drop_first())
    } else {
        seq![s[0]] + strip_ctl(s.drop_first())
    }
}

pub proof fn lemma_csi_len(s: Seq<char>)
    ensures
        csi_len(s) <= s.len(),
    decreases s.len(),
{
    if s.len() > 0 {
        lemma_csi_len(s.drop_first());
    }
}

pub proof fn lemma_osc_len(s: Seq<char>)
    ensures
        osc_len(s) <= s.len(),
    decreases s.len(),
{
    if s.len() > 0 {
        lemma_osc_len(s.drop_first());
    }
}

pub proof fn lemma_escape_len(s: Seq<char>)
    requires
        s.len() > 0,
    ensures
        1 <= escape_len(s) <= s.len(),
{
    if s.len() > 1 {
        lemma_csi_len(s.skip(2));
        lemma_osc_len(s.skip(2));
    }
}

/// No escape and no control character other than tab.
pub open spec fn control_free(t: Seq<char>) -> bool {
    forall|i: int|
        0 <= i < t.len() ==> #[trigger] t[i] != '\u{1b}' && !((t[i] as u32) < 0x20 && t[i] != '\t')
}

proof fn lemma_strip_ctl_control_free(s: Seq<char>)
    ensures
        control_free(strip_ctl(s)),
    decreases s.len(),
{
    if s.len() > 0 {
        if s[0] == '\u{1b}' {
            lemma_escape_len(s);
            lemma_strip_ctl_control_free(s.skip(escape_len(s) as int));
        } else if (s[0] as u32) < 0x20 && s[0] != '\t' {
            lemma_strip_ctl_control_free(s.drop_first());
        } else {
            lemma_strip_ctl_control_free(s.drop_first());
            let t = strip_ctl(s.drop_first());
            assert forall|i: int| 0 <= i < (seq![s[0]] + t).len() implies #[trigger] (seq![s[0]] + t)[i]
                != '\u{1b}' && !((((seq![s[0]] + t)[i]) as u32) < 0x20 && (seq![s[0]] + t)[i] != '\t') by {
                if i > 0 {
                    assert((seq![s[0]] + t)[i] == t[i - 1]);
                }
            }
        }
    }
}

proof fn lemma_strip_ctl_keeps_control_free(t: Seq<char>)
    requires
        control_free(t),
    ensures
        strip_ctl(t) == t,
    decreases t.len(),
{
    if t.len() > 0 {
        assert(t[0] != '\u{1b}');
        assert(control_free(t.drop_first())) by {
            assert forall|i: int| 0 <= i < t.drop_first().len() implies #[trigger] t.drop_first()[i] != '\u{1b}'
                && !((t.drop_first()[i] as u32) < 0x20 && t.drop_first()[i] != '\t') by {
                assert(t.drop_first()[i] == t[i + 1]);
            }
        }
        lemma_strip_ctl_keeps_control_free(t.drop_first());
        assert(t =~= seq![t[0]] + t.drop_first());
    }
}

/// Removing terminal controls twice removes nothing more: the result of
/// `strip_terminal_control_sequences` holds no escape and no control
/// character but tab, and such text comes back unchanged.
pub proof fn strip_control_sequences_idempotent(s: Seq<char>)
    ensures
        control_free(strip_ctl(s)),
        strip_ctl(strip_ctl(s)) == strip_ctl(s),
{
    lemma_strip_ctl_control_free(s);
    lemma_strip_ctl_keeps_control_free(strip_ctl(s));
}

/// A string terminator: BEL, or `ESC \`.
pub open spec fn string_terminator(term: Seq<char>) -> bool {
    term == seq!['\u{7}'] || term == seq!['\u{1b}', '\\']
}

/// Neither BEL nor ESC.
pub open spec fn no_bel_or_escape(t: Seq<char>) -> bool {
    forall|i: int| 0 <= i < t.len() ==> #[trigger] t[i] != '\u{7}' && t[i] != '\u{1b}'
}

proof fn lemma_osc_len_to_terminator(t: Seq<char>, term: Seq<char>, u: Seq<char>)
    requires
        no_bel_or_escape(t),
        string_terminator(term),
    ensures
        osc_len(t + term + u) == t.len() + term.len(),
    decreases t.len(),
{
    let s = t + term + u;
    if t.len() == 0 {
        assert(s =~= term + u);
        assert(s[0] == term[0]);
        if term == seq!['\u{1b}', '\\'] {
            assert(s[1] == term[1]);
        }
    } else {
        assert(t[0] != '\u{7}' && t[0] != '\u{1b}');
        assert(s[0] == t[0]);
        let t1 = t.drop_first();
        assert(no_bel_or_escape(t1)) by {
            assert forall|i: int| 0 <= i < t1.len() implies #[trigger] t1[i] != '\u{7}' && t1[i] != '\u{1b}' by {
                assert(t1[i] == t[i + 1]);
            }
        }
        assert(s.drop_first() =~= t1 + term + u);
        lemma_osc_len_to_terminator(t1, term, u);
    }
}

/// An OSC, DCS, PM or APC string (ESC followed by `]`, `P`, `^` or `_`)
/// ends at its first BEL or `ESC \`: the string and its terminator are
/// removed whole, and what follows is kept as if the string had not been
/// there.
pub proof fn osc_string_ends_at_terminator(intro: char, t: Seq<char>, term: Seq<char>, u: Seq<char>)
    requires
        osc_intro(intro),
        no_bel_or_escape(t),
        string_terminator(term),
    ensures
        strip_ctl(seq!['\u{1b}', intro] + t + term + u) == strip_ctl(u),
{
    let s = seq!['\u{1b}', intro] + t + term + u;
    assert(s[0] == '\u{1b}');
    assert(s[1] == intro);
    assert(s.skip(2) =~= t + term + u);
    lemma_osc_len_to_terminator(t, term, u);
    assert(escape_len(s) == 2 + t.len() + term.len());
    assert(s.skip(escape_len(s) as int) =~= u);
}

fn csi_len_from(v: &[char], i: usize) -> (n: usize)
    requires
        i <= v.len(),
    ensures
        n == csi_len(v@.skip(i as int)),
        i + n <= v.len(),
    decreases v.len() - i,
{
    if i == v.len() {
        proof {
            assert(v@.skip(i as int).len() == 0);
        }
        return 0;
    }
    proof {
        assert(v@.skip(i as int)[0] == v@[i as int]);
        assert(v@.skip(i as int).drop_first() =~= v@.skip(i + 1));
    }
    let c = v[i] as u32;
    if 0x40 <= c && c <= 0x7e {
        1
    } else {
        1 + csi_len_from(v, i + 1)
    }
}

fn osc_len_from(v: &[char], i: usize) -> (n: usize)
    requires
        i <= v.len(),
    ensures
        n == osc_len(v@.skip(i as int)),
        i + n <= v.len(),
    decreases v.len() - i,
{
    if i == v.len() {
        proof {
            assert(v@.skip(i as int).len() == 0);
        }
        return 0;
    }
    proof {
        assert(v@.skip(i as int)[0] == v@[i as int]);
        assert(v@.skip(i as int).drop_first() =~= v@.skip(i + 1));
        if i + 1 < v.len() {
            assert(v@.skip(i as int)[1] == v@[i + 1]);
        }
    }
    if v[i] == '\u{7}' {
        1
    } else if v[i] == '\u{1b}' && i + 1 < v.len() && v[i + 1] == '\\' {
        2
    } else {
        1 + osc_len_from(v, i + 1)
    }
}

/// Length of the escape sequence at `v[i]`, an ESC.
fn escape_len_at(v: &[char], i: usize) -> (n: usize)
    requires
        i < v.len(),
        v@[i as int] == '\u{1b}',
    ensures
        n == escape_len(v@.skip(i as int)),
        1 <= n,
        i + n <= v.len(),
{
    let ghost s = v@.skip(i as int);
    if i + 1 >= v.len() {
        return 1;
    }
    proof {
        assert(s[1] == v@[i + 1]);
        assert(s.skip(2) =~= v@.skip(i + 2));
    }
    let c = v[i + 1];
    if c == '[' {
        2 + csi_len_from(v, i + 2)
    } else if c == ']' || c == 'P' || c == '^' || c == '_' {
        2 + osc_len_from(v, i + 2)
    } else if c == '(' || c == ')' || c == '*' || c == '+' {
        if v.len() - i >= 3 {
            3
        } else {
            v.len() - i
        }
    } else {
        2
    }
}

/// Removes escape sequences and control characters other than tab.
pub fn strip_terminal_control_sequences(text: &str) -> (r: String)
    ensures
        r@ == strip_ctl(text@),
{
    let v = str_chars(text);
    let mut out = String::new();
    let mut i: usize = 0;
    proof {
        assert(v@.skip(0) =~= v@);
    }
    while i < v.len()
        invariant
            i <= v@.len(),
            v@ == text@,
            out@ + strip_ctl(v@.skip(i as int)) == strip_ctl(text@),
        decreases v.len() - i,
    {
        let ghost rest = v@.skip(i as int);
        proof {
            assert(rest[0] == v@[i as int]);
            assert(rest.drop_first() =~= v@.skip(i + 1));
        }
        let c = v[i];
        if c == '\u{1b}' {
            let n = escape_len_at(v.as_slice(), i);
            proof {
                assert(rest.skip(n as int) =~= v@.skip(i + n));
            }
            i = i + n;
        } else if (c as u32) < 0x20 && c != '\t' {
            i = i + 1;
        } else {
            let ghost before = out@;
            out.push(c);
            proof {
                assert(out@ + strip_ctl(v@.skip(i + 1)) =~= before + (seq![c] + strip_ctl(v@.skip(i + 1))));
            }
            i = i + 1;
        }
    }
    proof {
        assert(v@.skip(i as int).len() == 0);
        assert(out@ + Seq::<char>::empty() =~= out@);
    }
    out
}

/// ESC, or a control character other than tab.
pub open spec fn has_control(s: Seq<char>) -> bool {
    exists|i: int| 0 <= i < s.len() && (s[i] == '\u{1b}' || ((s[i] as u32) < 0x20 && s[i] != '\t'))
}

pub fn contains_terminal_control(text: &str) -> (r: bool)
    ensures
        r == has_control(text@),
{
    let v = str_chars(text);
    let mut i: usize = 0;
    while i < v.len()
        invariant
            i <= v@.len(),
            v@ == text@,
            forall|k: int| 0 <= k < i ==> !(v@[k] == '\u{1b}' || ((v@[k] as u32) < 0x20 && v@[k] != '\t')),
        decreases v.len() - i,
    {
        let c = v[i];
        if c == '\u{1b}' || ((c as u32) < 0x20 && c != '\t') {
            return true;
        }
        i = i + 1;
    }
    false
}

/// CSI final characters that move the cursor or erase.
pub open spec fn repaint_final(c: char) -> bool {
    c == 'A' || c == 'B' || c == 'C' || c == 'D' || c == 'E' || c == 'F' || c == 'G' || c == 'H' || c == 'J'
        || c == 'K' || c == 'S' || c == 'T' || c == 'f'
}

/// Whether `s` holds something that redraws the terminal: a cursor-moving
/// or erasing CSI sequence, an OSC-like string, another escape, a
/// backspace, or a control character other than tab, CR and LF.
pub open spec fn has_repaint(s: Seq<char>) -> bool
    decreases s.len(),
{
    if s.len() == 0 {
        false
    } else if s[0] == '\u{1b}' {
        if s.len() == 1 {
            true
        } else if s[1] == '[' {
            let n = csi_len(s.skip(2));
            proof {
                lemma_csi_len(s.skip(2));
            }
            if n > 0 && csi_final(s[1 + n as int]) && repaint_final(s[1 + n as int]) {
                true
            } else {
                has_repaint(s.skip(2 + n as int))
            }
        } else if osc_intro(s[1]) {
            true
        } else if charset_intro(s[1]) {
            has_repaint(s.skip(if s.len() >= 3 { 3 } else { s.len() as int }))
        } else {
            true
        }
    } else if s[0] == '\u{8}' {
        true
    } else if (s[0] as u32) < 0x20 && s[0] != '\t' && s[0] != '\r' && s[0] != '\n' {
        true
    } else {
        has_repaint(s.drop_first())
    }
}

pub fn contains_terminal_repaint_control(text: &str) -> (r: bool)
    ensures
        r == has_repaint(text@),
{
    let v = str_chars(text);
    let mut i: usize = 0;
    proof {
        assert(v@.skip(0) =~= v@);
    }
    while i < v.len()
        invariant
            i <= v@.len(),
            v@ == text@,
            has_repaint(v@.skip(i as int)) == has_repaint(text@),
        decreases v.len() - i,
    {
        let ghost rest = v@.skip(i as int);
        proof {
            assert(rest[0] == v@[i as int]);
            assert(rest.drop_first() =~= v@.skip(i + 1));
        }
        let c = v[i];
        if c == '\u{1b}' {
            if i + 1 >= v.len() {
                return true;
            }
            proof {
                assert(rest[1] == v@[i + 1]);
                assert(rest.skip(2) =~= v@.skip(i + 2));
            }
            let d = v[i + 1];
            if d == '[' {
                let n = csi_len_from(v.as_slice(), i + 2);
                if n > 0 {
                    let f = v[i + 1 + n];
                    proof {
                        assert(rest[1 + n] == v@[i + 1 + n]);
                    }
                    let fv = f as u32;
                    if 0x40 <= fv && fv <= 0x7e && (f == 'A' || f == 'B' || f == 'C' || f == 'D' || f == 'E' || f
                        == 'F' || f == 'G' || f == 'H' || f == 'J' || f == 'K' || f == 'S' || f == 'T' || f == 'f') {
                        return true;
                    }
                }
                proof {
                    assert(rest.skip(2 + n as int) =~= v@.skip(i + 2 + n));
                }
                i = i + 2 + n;
            } else if d == ']' || d == 'P' || d == '^' || d == '_' {
                return true;
            } else if d == '(' || d == ')' || d == '*' || d == '+' {
                let step = if v.len() - i >= 3 {
                    3
                } else {
                    v.len() - i
                };
                proof {
                    assert(rest.skip(step as int) =~= v@.skip(i + step));
                }
                i = i + step;
            } else {
                return true;
            }
        } else if c == '\u{8}' {
            return true;
        } else if (c as u32) < 0x20 && c != '\t' && c != '\r' && c != '\n' {
            return true;
        } else {
            i = i + 1;
        }
    }
    proof {
        assert(v@.skip(i as int).len() == 0);
    }
    false
}

/// Number of leading characters of `s` that are in `set`.
pub open spec fn lead_in(s: Seq<char>, set: Seq<char>) -> nat
    decreases s.len(),
{
    if s.len() > 0 && set.contains(s[0]) {
        1 + lead_in(s.drop_first(), set)
    } else {
        0
    }
}

/// Number of trailing characters of `s` that are in `set`.
pub open spec fn trail_in(s: Seq<char>, set: Seq<char>) -> nat
    decreases s.len(),
{
    if s.len() > 0 && set.contains(s.last()) {
        1 + trail_in(s.drop_last(), set)
    } else {
        0
    }
}

/// `s` without the characters of `set` at its start.
pub open spec fn trim_start_in(s: Seq<char>, set: Seq<char>) -> Seq<char> {
    s.skip(lead_in(s, set) as int)
}

/// `s` without the characters of `set` at either end.
pub open spec fn trim_in(s: Seq<char>, set: Seq<char>) -> Seq<char> {
    let rest = s.skip(lead_in(s, set) as int);
    rest.take(rest.len() - trail_in(rest, set))
}

pub proof fn lemma_lead_in(s: Seq<char>, set: Seq<char>)
    ensures
        lead_in(s, set) <= s.len(),
    decreases s.len(),
{
    if s.len() > 0 {
        lemma_lead_in(s.drop_first(), set);
    }
}

pub proof fn lemma_trail_in(s: Seq<char>, set: Seq<char>)
    ensures
        trail_in(s, set) <= s.len(),
    decreases s.len(),
{
    if s.len() > 0 {
        lemma_trail_in(s.drop_last(), set);
    }
}

pub fn lead_in_exec(v: &[char], set: &[char]) -> (n: usize)
    ensures
        n == lead_in(v@, set@),
        n <= v.len(),
{
    let mut i: usize = 0;
    proof {
        assert(v@.skip(0) =~= v@);
    }
    while i < v.len() && crate::text::contains_char(set, v[i])
        invariant
            i <= v@.len(),
            lead_in(v@, set@) == i + lead_in(v@.skip(i as int), set@),
        decreases v.len() - i,
    {
        proof {
            assert(v@.skip(i as int)[0] == v@[i as int]);
            assert(v@.skip(i as int).drop_first() =~= v@.skip(i + 1));
        }
        i = i + 1;
    }
    proof {
        if i < v.len() {
            assert(v@.skip(i as int)[0] == v@[i as int]);
        }
    }
    i
}

pub fn trail_in_exec(v: &[char], set: &[char]) -> (n: usize)
    ensures
        n == trail_in(v@, set@),
        n <= v.len(),
{
    let mut j: usize = v.len();
    proof {
        assert(v@.take(v@.len() as int) =~= v@);
    }
    while j > 0 && crate::text::contains_char(set, v[j - 1])
        invariant
            j <= v@.len(),
            trail_in(v@, set@) == (v@.len() - j) + trail_in(v@.take(j as int), set@),
        decreases j,
    {
        proof {
            assert(v@.take(j as int).last() == v@[j - 1]);
            assert(v@.take(j as int).drop_last() =~= v@.take(j - 1));
        }
        j = j - 1;
    }
    proof {
        if j > 0 {
            assert(v@.take(j as int).last() == v@[j - 1]);
        }
    }
    v.len() - j
}

/// `v` without the characters of `set` at either end.
pub fn trim_in_exec(v: &[char], set: &[char]) -> (r: Vec<char>)
    ensures
        r@ == trim_in(v@, set@),
{
    let a = lead_in_exec(v, set);
    let rest = sub_chars(v, a, v.len());
    let b = trail_in_exec(rest.as_slice(), set);
    proof {
        assert(rest@ =~= v@.skip(a as int));
    }
    sub_chars(rest.as_slice(), 0, rest.len() - b)
}

pub open spec fn quote_set() -> Seq<char> {
    seq!['\'', '"']
}

pub open spec fn quote_semicolon_set() -> Seq<char> {
    seq!['\'', '"', ';']
}

pub open spec fn prompt_set() -> Seq<char> {
    seq!['>', '=']
}

/// Shell operators that also separate words in a command.
pub open spec fn op_char(c: char) -> bool {
    c == ';' || c == '|' || c == '&' || c == '<' || c == '>'
}

/// Characters that only shell syntax would put in an echoed fragment.
pub open spec fn syntax_char(c: char) -> bool {
    c == '\'' || c == '"' || c == '\\' || c == '$' || op_char(c)
}

pub open spec fn syntax_fragment(l: Seq<char>) -> bool {
    exists|i: int| 0 <= i < l.len() && syntax_char(#[trigger] l[i])
}

pub open spec fn word_sep(c: char) -> bool {
    crate::text::is_ws(c) || op_char(c)
}

/// The pieces of a command between whitespace and shell operators.
pub open spec fn command_pieces(s: Seq<char>) -> Seq<Seq<char>>
    decreases s.len(),
{
    if s.len() == 0 {
        seq![seq![]]
    } else {
        let p = command_pieces(s.drop_last());
        if word_sep(s.last()) {
            p.push(seq![])
        } else {
            p.update(p.len() - 1, p.last().push(s.last()))
        }
    }
}

pub proof fn lemma_command_pieces_len(s: Seq<char>)
    ensures
        command_pieces(s).len() >= 1,
    decreases s.len(),
{
    if s.len() > 0 {
        lemma_command_pieces_len(s.drop_last());
    }
}

/// The non-empty pieces of a command, each without the characters of
/// `set` at its ends.
pub open spec fn command_tokens(command: Seq<char>, set: Seq<char>) -> Seq<Seq<char>> {
    command_pieces(command).map_values(|p: Seq<char>| trim_in(p, set)).filter(|p: Seq<char>| p.len() > 0)
}

/// Position of the first occurrence of `x` in `s`.
pub open spec fn first_index(s: Seq<Seq<char>>, x: Seq<char>) -> Option<int>
    decreases s.len(),
{
    if s.len() == 0 {
        None
    } else if s[0] == x {
        Some(0)
    } else {
        match first_index(s.drop_first(), x) {
            Some(k) => Some(k + 1),
            None => None,
        }
    }
}

/// A fragment that fish echoed from the command: operators found in it,
/// or a word of it (a plain word only when another word follows it).
pub open spec fn repaint_token(command: Seq<char>, line: Seq<char>) -> bool {
    if line.len() == 0 {
        false
    } else if forall|i: int| 0 <= i < line.len() ==> op_char(#[trigger] line[i]) {
        has_infix(command, line)
    } else {
        let l = trim_in(line, quote_semicolon_set());
        let toks = command_tokens(command, quote_set());
        if !syntax_fragment(l) {
            match first_index(toks, l) {
                Some(k) => k + 1 < toks.len(),
                None => false,
            }
        } else {
            toks.contains(l)
        }
    }
}

/// The line without the prompt characters and whitespace around it.
pub open spec fn repaint_core(line: Seq<char>) -> Seq<char> {
    trim_end(trim_start(trim_start_in(line, prompt_set())))
}

/// A visible line that is fish echoing (part of) the command it runs.
pub open spec fn echo_fragment(line: Seq<char>, command: Seq<char>, had_control: bool) -> bool {
    if line.len() == 0 {
        false
    } else {
        let l = repaint_core(line);
        l.len() == 0 || l == command || has_prefix(command, l) || (syntax_fragment(l) && (has_suffix(command, l)
            || repaint_token(command, l))) || (had_control && repaint_token(command, l))
    }
}

/// A held line that only repaints (part of) the command.
pub open spec fn command_repaint(line: Seq<char>, command: Seq<char>) -> bool {
    let l = repaint_core(line);
    if l.len() == 0 || l == command || has_prefix(command, l) {
        true
    } else {
        let l2 = trim_in(l, quote_semicolon_set());
        l2.len() == 0 || command_tokens(command, quote_semicolon_set()).contains(l2)
    }
}

fn set_of(a: char, b: char) -> (r: Vec<char>)
    ensures
        r@ == seq![a, b],
{
    let mut r: Vec<char> = Vec::new();
    r.push(a);
    r.push(b);
    assert(r@ =~= seq![a, b]);
    r
}

fn set_of3(a: char, b: char, c: char) -> (r: Vec<char>)
    ensures
        r@ == seq![a, b, c],
{
    let mut r: Vec<char> = Vec::new();
    r.push(a);
    r.push(b);
    r.push(c);
    assert(r@ =~= seq![a, b, c]);
    r
}

fn repaint_core_of(line: &[char]) -> (r: Vec<char>)
    ensures
        r@ == repaint_core(line@),
{
    let set = set_of('>', '=');
    let a = lead_in_exec(line, set.as_slice());
    let rest = sub_chars(line, a, line.len());
    proof {
        assert(rest@ =~= trim_start_in(line@, prompt_set()));
    }
    let t = trim_start_chars(rest.as_slice());
    trim_end_chars(t.as_slice())
}

fn is_syntax_fragment(l: &[char]) -> (r: bool)
    ensures
        r == syntax_fragment(l@),
{
    let mut i: usize = 0;
    while i < l.len()
        invariant
            i <= l@.len(),
            forall|k: int| 0 <= k < i ==> !syntax_char(#[trigger] l@[k]),
        decreases l.len() - i,
    {
        let c = l[i];
        if c == '\'' || c == '"' || c == '\\' || c == '$' || c == ';' || c == '|' || c == '&' || c == '<' || c == '>' {
            assert(syntax_char(l@[i as int]));
            return true;
        }
        i = i + 1;
    }
    false
}

/// The tokens of `command`; see `command_tokens`.
fn command_tokens_of(command: &[char], set: &[char]) -> (r: Vec<Vec<char>>)
    ensures
        r@.map_values(|t: Vec<char>| t@) == command_tokens(command@, set@),
{
    let mut pieces: Vec<Vec<char>> = Vec::new();
    let mut piece: Vec<char> = Vec::new();
    let mut i: usize = 0;
    proof {
        assert(command@.take(0) =~= Seq::<char>::empty());
        assert(pieces@.map_values(|p: Vec<char>| p@).push(piece@) =~= command_pieces(command@.take(0)));
    }
    while i < command.len()
        invariant
            i <= command@.len(),
            pieces@.map_values(|p: Vec<char>| p@).push(piece@) == command_pieces(command@.take(i as int)),
        decreases command.len() - i,
    {
        let ghost prev = command_pieces(command@.take(i as int));
        let ghost old_pieces = pieces@.map_values(|p: Vec<char>| p@);
        proof {
            assert(command@.take(i + 1).drop_last() =~= command@.take(i as int));
            assert(command@.take(i + 1).last() == command@[i as int]);
        }
        let c = command[i];
        if crate::text::is_whitespace(c) || c == ';' || c == '|' || c == '&' || c == '<' || c == '>' {
            let done = piece;
            pieces.push(done);
            piece = Vec::new();
            proof {
                assert(pieces@.map_values(|p: Vec<char>| p@) =~= prev);
                assert(pieces@.map_values(|p: Vec<char>| p@).push(piece@) =~= prev.push(seq![]));
            }
        } else {
            piece.push(c);
            proof {
                assert(old_pieces.push(piece@) =~= prev.update(prev.len() - 1, prev.last().push(c)));
            }
        }
        i = i + 1;
    }
    proof {
        assert(command@.take(command@.len() as int) =~= command@);
    }
    let last = piece;
    pieces.push(last);
    let ghost all = pieces@.map_values(|p: Vec<char>| p@);
    let ghost f = |p: Seq<char>| trim_in(p, set@);
    let ghost keep = |p: Seq<char>| p.len() > 0;
    let mut out: Vec<Vec<char>> = Vec::new();
    let mut k: usize = 0;
    while k < pieces.len()
        invariant
            k <= pieces@.len(),
            all == pieces@.map_values(|p: Vec<char>| p@),
            all == command_pieces(command@),
            f == (|p: Seq<char>| trim_in(p, set@)),
            keep == (|p: Seq<char>| p.len() > 0),
            out@.map_values(|t: Vec<char>| t@) == all.take(k as int).map_values(f).filter(keep),
        decreases pieces.len() - k,
    {
        let t = trim_in_exec(pieces[k].as_slice(), set);
        proof {
            assert(all.take(k + 1).map_values(f).drop_last() =~= all.take(k as int).map_values(f));
            assert(all.take(k + 1).map_values(f).last() == t@);
            reveal_with_fuel(Seq::filter, 1);
        }
        if t.len() > 0 {
            let ghost before = out@.map_values(|t: Vec<char>| t@);
            out.push(t);
            proof {
                assert(out@.map_values(|t: Vec<char>| t@) =~= before.push(t@));
            }
        }
        k = k + 1;
    }
    proof {
        assert(all.take(all.len() as int) =~= all);
    }
    out
}

fn all_ops(l: &[char]) -> (r: bool)
    ensures
        r == (forall|i: int| 0 <= i < l@.len() ==> op_char(#[trigger] l@[i])),
{
    let mut i: usize = 0;
    while i < l.len()
        invariant
            i <= l@.len(),
            forall|k: int| 0 <= k < i ==> op_char(#[trigger] l@[k]),
        decreases l.len() - i,
    {
        let c = l[i];
        if !(c == ';' || c == '|' || c == '&' || c == '<' || c == '>') {
            assert(!op_char(l@[i as int]));
            return false;
        }
        i = i + 1;
    }
    true
}

fn first_index_of(s: &Vec<Vec<char>>, x: &[char]) -> (r: Option<usize>)
    ensures
        match r {
            Some(k) => first_index(s@.map_values(|t: Vec<char>| t@), x@) == Some(k as int),
            None => first_index(s@.map_values(|t: Vec<char>| t@), x@) is None,
        },
{
    let ghost all = s@.map_values(|t: Vec<char>| t@);
    let mut i: usize = 0;
    proof {
        assert(all.skip(0) =~= all);
    }
    while i < s.len()
        invariant
            i <= s@.len(),
            all == s@.map_values(|t: Vec<char>| t@),
            first_index(all, x@) == match first_index(all.skip(i as int), x@) {
                Some(k) => Some(k + i),
                None => None,
            },
        decreases s.len() - i,
    {
        proof {
            assert(all.skip(i as int)[0] == s@[i as int]@);
            assert(all.skip(i as int).drop_first() =~= all.skip(i + 1));
        }
        if chars_eq(s[i].as_slice(), x) {
            return Some(i);
        }
        i = i + 1;
    }
    proof {
        assert(all.skip(i as int).len() == 0);
    }
    None
}

fn tokens_contain(s: &Vec<Vec<char>>, x: &[char]) -> (r: bool)
    ensures
        r == s@.map_values(|t: Vec<char>| t@).contains(x@),
{
    let ghost all = s@.map_values(|t: Vec<char>| t@);
    let mut i: usize = 0;
    while i < s.len()
        invariant
            i <= s@.len(),
            all == s@.map_values(|t: Vec<char>| t@),
            forall|k: int| 0 <= k < i ==> all[k] != x@,
        decreases s.len() - i,
    {
        if chars_eq(s[i].as_slice(), x) {
            assert(all[i as int] == x@);
            return true;
        }
        i = i + 1;
    }
    false
}

/// See `repaint_token`.
fn command_contains_repaint_token(command: &[char], line: &[char]) -> (r: bool)
    ensures
        r == repaint_token(command@, line@),
{
    if line.len() == 0 {
        return false;
    }
    if all_ops(line) {
        return contains(command, line);
    }
    let qs = set_of3('\'', '"', ';');
    let l = trim_in_exec(line, qs.as_slice());
    let q = set_of('\'', '"');
    let toks = command_tokens_of(command, q.as_slice());
    if !is_syntax_fragment(l.as_slice()) {
        match first_index_of(&toks, l.as_slice()) {
            Some(k) => toks.len() > 0 && k < toks.len() - 1,
            None => false,
        }
    } else {
        tokens_contain(&toks, l.as_slice())
    }
}

/// See `echo_fragment`.
pub fn is_fish_repaint_echo_fragment(line: &str, command: &str, had_terminal_control: bool) -> (r: bool)
    ensures
        r == echo_fragment(line@, command@, had_terminal_control),
{
    let lv = str_chars(line);
    if lv.len() == 0 {
        return false;
    }
    let c = str_chars(command);
    let l = repaint_core_of(lv.as_slice());
    if l.len() == 0 {
        return true;
    }
    chars_eq(l.as_slice(), c.as_slice()) || starts_with(c.as_slice(), l.as_slice()) || (is_syntax_fragment(
        l.as_slice(),
    ) && (ends_with(c.as_slice(), l.as_slice()) || command_contains_repaint_token(c.as_slice(), l.as_slice())))
        || (had_terminal_control && command_contains_repaint_token(c.as_slice(), l.as_slice()))
}

/// See `command_repaint`.
pub fn is_fish_command_repaint_token(line: &str, command: &str) -> (r: bool)
    ensures
        r == command_repaint(line@, command@),
{
    let lv = str_chars(line);
    let c = str_chars(command);
    let l = repaint_core_of(lv.as_slice());
    if l.len() == 0 || chars_eq(l.as_slice(), c.as_slice()) || starts_with(c.as_slice(), l.as_slice()) {
        return true;
    }
    let qs = set_of3('\'', '"', ';');
    let l2 = trim_in_exec(l.as_slice(), qs.as_slice());
    if l2.len() == 0 {
        return true;
    }
    let toks = command_tokens_of(c.as_slice(), qs.as_slice());
    tokens_contain(&toks, l2.as_slice())
}

/// How a fish output line is kept: its text without trailing whitespace
/// and whether it held terminal controls; `None` for repaint noise (the
/// `⏎` mark, control-only lines, echoes of the command).
pub open spec fn fish_kept(line: Seq<char>, started: Option<Seq<char>>) -> Option<(Seq<char>, bool)> {
    let had = has_control(line);
    let cleaned = strip_ctl(line);
    let visible = trim(cleaned);
    if visible.len() > 0 && visible[0] == '\u{23ce}' {
        None
    } else if visible.len() == 0 && had {
        None
    } else if started matches Some(cmd) && echo_fragment(visible, cmd, had) {
        None
    } else {
        Some((trim_end(cleaned), had))
    }
}

pub open spec fn kept_lines(lines: Seq<Seq<char>>, started: Option<Seq<char>>) -> Seq<(Seq<char>, bool)>
    decreases lines.len(),
{
    if lines.len() == 0 {
        seq![]
    } else {
        let rest = kept_lines(lines.drop_last(), started);
        match fish_kept(lines.last(), started) {
            Some(k) => rest.push(k),
            None => rest,
        }
    }
}

/// Length of the run of lines equal to the first one.
pub open spec fn run_len(s: Seq<(Seq<char>, bool)>) -> nat
    decreases s.len(),
{
    if s.len() <= 1 {
        s.len()
    } else if s[1].0 == s[0].0 {
        1 + run_len(s.drop_first())
    } else {
        1
    }
}

pub open spec fn plain_texts(run: Seq<(Seq<char>, bool)>) -> Seq<Seq<char>> {
    run.filter(|l: (Seq<char>, bool)| !l.1).map_values(|l: (Seq<char>, bool)| l.0)
}

/// Runs of equal lines collapsed: a run keeps its lines without terminal
/// controls, or one line when all of them had controls.
pub open spec fn dedup_runs(s: Seq<(Seq<char>, bool)>) -> Seq<Seq<char>>
    decreases s.len(),
{
    if s.len() == 0 {
        seq![]
    } else {
        let n = run_len(s);
        proof {
            lemma_run_len(s);
        }
        let run = s.take(n as int);
        let part = if n == 1 || plain_texts(run).len() == 0 {
            seq![s[0].0]
        } else {
            plain_texts(run)
        };
        part + dedup_runs(s.skip(n as int))
    }
}

pub proof fn lemma_run_len(s: Seq<(Seq<char>, bool)>)
    ensures
        s.len() > 0 ==> 1 <= run_len(s) <= s.len(),
    decreases s.len(),
{
    if s.len() > 1 {
        lemma_run_len(s.drop_first());
    }
}

/// A run of `m` lines equal to the first, ended by a different line or
/// the end, has length `m`.
proof fn lemma_run_len_exact(s: Seq<(Seq<char>, bool)>, m: int)
    requires
        1 <= m <= s.len(),
        forall|k: int| 1 <= k < m ==> (#[trigger] s[k]).0 == s[0].0,
        m == s.len() || s[m].0 != s[0].0,
    ensures
        run_len(s) == m,
    decreases m,
{
    if m > 1 {
        let t = s.drop_first();
        assert forall|k: int| 1 <= k < m - 1 implies (#[trigger] t[k]).0 == t[0].0 by {
            assert(t[k] == s[k + 1]);
        }
        lemma_run_len_exact(t, m - 1);
    }
}

/// Fish output lines without repaint noise; see `fish_kept` and
/// `dedup_runs`.
pub open spec fn fish_cleaned(lines: Seq<Seq<char>>, started: Option<Seq<char>>) -> Seq<Seq<char>> {
    dedup_runs(kept_lines(lines, started))
}

pub fn clean_fish_repaint_lines(output_lines: Vec<String>, started_command: Option<&str>) -> (r: Vec<String>)
    ensures
        r@.map_values(|l: String| l@) == fish_cleaned(
            output_lines@.map_values(|l: String| l@),
            match started_command {
                Some(c) => Some(c@),
                None => None,
            },
        ),
{
    let ghost lines = output_lines@.map_values(|l: String| l@);
    let ghost started = match started_command {
        Some(c) => Some(c@),
        None => None,
    };
    let mut kept: Vec<(Vec<char>, bool)> = Vec::new();
    let mut i: usize = 0;
    proof {
        assert(lines.take(0) =~= Seq::<Seq<char>>::empty());
    }
    while i < output_lines.len()
        invariant
            i <= output_lines@.len(),
            lines == output_lines@.map_values(|l: String| l@),
            started == match started_command {
                Some(c) => Some(c@),
                None => None::<Seq<char>>,
            },
            kept@.map_values(|k: (Vec<char>, bool)| (k.0@, k.1)) == kept_lines(lines.take(i as int), started),
        decreases output_lines.len() - i,
    {
        proof {
            assert(lines.take(i + 1).drop_last() =~= lines.take(i as int));
            assert(lines.take(i + 1).last() == output_lines@[i as int]@);
        }
        let line = output_lines[i].as_str();
        let had = contains_terminal_control(line);
        let cleaned = strip_terminal_control_sequences(line);
        let cv = str_chars(cleaned.as_str());
        let visible = trim_chars(cv.as_slice());
        let mut keep = true;
        if visible.len() > 0 && visible[0] == '\u{23ce}' {
            keep = false;
        } else if visible.len() == 0 && had {
            keep = false;
        } else {
            match started_command {
                Some(cmd) => {
                    let vis = chars_string(visible.as_slice());
                    if is_fish_repaint_echo_fragment(vis.as_str(), cmd, had) {
                        keep = false;
                    }
                },
                None => {},
            }
        }
        if keep {
            let ghost before = kept@.map_values(|k: (Vec<char>, bool)| (k.0@, k.1));
            let t = trim_end_chars(cv.as_slice());
            kept.push((t, had));
            proof {
                assert(kept@.map_values(|k: (Vec<char>, bool)| (k.0@, k.1)) =~= before.push((t@, had)));
            }
        }
        i = i + 1;
    }
    proof {
        assert(lines.take(lines.len() as int) =~= lines);
    }
    let ghost ks = kept@.map_values(|k: (Vec<char>, bool)| (k.0@, k.1));
    let mut out: Vec<String> = Vec::new();
    let n = kept.len();
    let mut index: usize = 0;
    proof {
        assert(ks.skip(0) =~= ks);
        assert(out@.map_values(|l: String| l@) + dedup_runs(ks.skip(0)) =~= dedup_runs(ks));
    }
    while index < n
        invariant
            index <= n == kept@.len() == ks.len(),
            ks == kept@.map_values(|k: (Vec<char>, bool)| (k.0@, k.1)),
            out@.map_values(|l: String| l@) + dedup_runs(ks.skip(index as int)) == dedup_runs(ks),
        decreases n - index,
    {
        let mut end = index + 1;
        while end < n && chars_eq(kept[end].0.as_slice(), kept[index].0.as_slice())
            invariant
                index < end <= n == kept@.len(),
                ks == kept@.map_values(|k: (Vec<char>, bool)| (k.0@, k.1)),
                forall|k: int| index < k < end ==> (#[trigger] ks[k]).0 == ks[index as int].0,
            decreases n - end,
        {
            end = end + 1;
        }
        let ghost rest = ks.skip(index as int);
        proof {
            assert forall|k: int| 1 <= k < end - index implies (#[trigger] rest[k]).0 == rest[0].0 by {
                assert(rest[k] == ks[index + k]);
            }
            if end < n {
                assert(rest[end - index] == ks[end as int]);
            }
            lemma_run_len_exact(rest, end - index);
            assert(rest.skip(end - index) =~= ks.skip(end as int));
        }
        let ghost run = rest.take(end - index);
        let ghost before = out@.map_values(|l: String| l@);
        // the lines of the run without terminal controls
        let mut normal: Vec<String> = Vec::new();
        let mut k: usize = index;
        proof {
            assert(run.take(0) =~= Seq::<(Seq<char>, bool)>::empty());
        }
        while k < end
            invariant
                index <= k <= end <= n == kept@.len(),
                ks == kept@.map_values(|k: (Vec<char>, bool)| (k.0@, k.1)),
                run == ks.skip(index as int).take(end - index),
                normal@.map_values(|l: String| l@) == plain_texts(run.take(k - index)),
            decreases end - k,
        {
            proof {
                assert(run.take(k - index + 1).drop_last() =~= run.take(k - index));
                assert(run.take(k - index + 1).last() == ks[k as int]);
                reveal_with_fuel(Seq::filter, 1);
            }
            if !kept[k].1 {
                let ghost nb = normal@.map_values(|l: String| l@);
                normal.push(chars_string(kept[k].0.as_slice()));
                proof {
                    assert(normal@.map_values(|l: String| l@) =~= nb.push(ks[k as int].0));
                    assert(run.take(k - index + 1).filter(|l: (Seq<char>, bool)| !l.1) =~= run.take(k - index).filter(
                        |l: (Seq<char>, bool)| !l.1,
                    ).push(ks[k as int]));
                }
            } else {
                proof {
                    assert(run.take(k - index + 1).filter(|l: (Seq<char>, bool)| !l.1) =~= run.take(k - index).filter(
                        |l: (Seq<char>, bool)| !l.1,
                    ));
                }
            }
            k = k + 1;
        }
        proof {
            assert(run.take(end - index) =~= run);
        }
        if end - index == 1 || normal.len() == 0 {
            out.push(chars_string(kept[index].0.as_slice()));
            proof {
                assert(rest[0] == ks[index as int]);
                assert(out@.map_values(|l: String| l@) =~= before + seq![rest[0].0]);
            }
        } else {
            let mut j: usize = 0;
            while j < normal.len()
                invariant
                    j <= normal@.len(),
                    out@.map_values(|l: String| l@) == before + normal@.take(j as int).map_values(|l: String| l@),
                decreases normal.len() - j,
            {
                let ghost ob = out@.map_values(|l: String| l@);
                let c = normal[j].clone();
                out.push(c);
                proof {
                    assert(out@.map_values(|l: String| l@) =~= ob.push(c@));
                    assert(normal@.take(j + 1).map_values(|l: String| l@) =~= normal@.take(j as int).map_values(
                        |l: String| l@,
                    ).push(normal@[j as int]@));
                }
                j = j + 1;
            }
            proof {
                assert(normal@.take(normal@.len() as int) =~= normal@);
            }
        }
        proof {
            let part = if end - index == 1 || plain_texts(run).len() == 0 {
                seq![rest[0].0]
            } else {
                plain_texts(run)
            };
            assert(dedup_runs(rest) == part + dedup_runs(rest.skip(end - index)));
            assert(out@.map_values(|l: String| l@) == before + part);
            assert(out@.map_values(|l: String| l@) + dedup_runs(ks.skip(end as int)) =~= before + dedup_runs(rest));
        }
        index = end;
    }
    proof {
        assert(ks.skip(n as int).len() == 0);
        assert(out@.map_values(|l: String| l@) + Seq::<Seq<char>>::empty() =~= out@.map_values(|l: String| l@));
    }
    out
}

} // verus!
