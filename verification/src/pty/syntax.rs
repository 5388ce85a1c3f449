//! Whether typed input is a complete shell command or needs more lines,
//! judged from its quotes and backslashes.
use vstd::prelude::*;
use crate::pty::ContinuationCheck;
use crate::text::{contains, has_infix, str_chars};

verus! {

broadcast use vstd::string::group_string_axioms;

#[derive(Debug, Clone, Copy, PartialEq, Eq, Structural)]
pub enum ShellLexicalState {
    Normal,
    SingleQuoted,
    DoubleQuoted,
}

/// The quoting in force after some input, and whether its last character
/// escapes the next one.
#[derive(Debug, Clone, Copy, PartialEq, Eq, Structural)]
pub struct LexicalState {
    pub quote: ShellLexicalState,
    pub escaped: bool,
}

/// One character: an escaped character is taken as it is; outside quotes
/// a backslash escapes and quotes open; inside single quotes only `'`
/// counts; inside double quotes a backslash escapes and `"` closes.
pub open spec fn lex_step(st: LexicalState, ch: char) -> LexicalState {
    if st.escaped {
        LexicalState { quote: st.quote, escaped: false }
    } else {
        match st.quote {
            ShellLexicalState::Normal => if ch == '\\' {
                LexicalState { quote: st.quote, escaped: true }
            } else if ch == '\'' {
                LexicalState { quote: ShellLexicalState::SingleQuoted, escaped: false }
            } else if ch == '"' {
                LexicalState { quote: ShellLexicalState::DoubleQuoted, escaped: false }
            } else {
                st
            },
            ShellLexicalState::SingleQuoted => if ch == '\'' {
                LexicalState { quote: ShellLexicalState::Normal, escaped: false }
            } else {
                st
            },
            ShellLexicalState::DoubleQuoted => if ch == '\\' {
                LexicalState { quote: st.quote, escaped: true }
            } else if ch == '"' {
                LexicalState { quote: ShellLexicalState::Normal, escaped: false }
            } else {
                st
            },
        }
    }
}

pub open spec fn lex_state(s: Seq<char>) -> LexicalState
    decreases s.len(),
{
    if s.len() == 0 {
        LexicalState { quote: ShellLexicalState::Normal, escaped: false }
    } else {
        lex_step(lex_state(s.drop_last()), s.last())
    }
}

/// The state after all of `input`.
pub fn lexical_state(input: &str) -> (r: LexicalState)
    ensures
        r == lex_state(input@),
{
    let v = str_chars(input);
    let mut st = LexicalState { quote: ShellLexicalState::Normal, escaped: false };
    let mut i: usize = 0;
    assert(v@.take(0) =~= Seq::<char>::empty());
    while i < v.len()
        invariant
            i <= v@.len(),
            st == lex_state(v@.take(i as int)),
        decreases v@.len() - i,
    {
        assert(v@.take(i + 1).drop_last() =~= v@.take(i as int));
        let ch = v[i];
        if st.escaped {
            st = LexicalState { quote: st.quote, escaped: false };
        } else {
            match st.quote {
                ShellLexicalState::Normal => {
                    if ch == '\\' {
                        st = LexicalState { quote: st.quote, escaped: true };
                    } else if ch == '\'' {
                        st = LexicalState { quote: ShellLexicalState::SingleQuoted, escaped: false };
                    } else if ch == '"' {
                        st = LexicalState { quote: ShellLexicalState::DoubleQuoted, escaped: false };
                    }
                },
                ShellLexicalState::SingleQuoted => {
                    if ch == '\'' {
                        st = LexicalState { quote: ShellLexicalState::Normal, escaped: false };
                    }
                },
                ShellLexicalState::DoubleQuoted => {
                    if ch == '\\' {
                        st = LexicalState { quote: st.quote, escaped: true };
                    } else if ch == '"' {
                        st = LexicalState { quote: ShellLexicalState::Normal, escaped: false };
                    }
                },
            }
        }
        i = i + 1;
    }
    assert(v@.take(v@.len() as int) =~= v@);
    st
}

/// The continuation prompt that the state calls for, if any.
pub open spec fn continuation_prompt(st: LexicalState) -> Option<Seq<char>> {
    match st.quote {
        ShellLexicalState::SingleQuoted => Some("quote> "@),
        ShellLexicalState::DoubleQuoted => Some("dquote> "@),
        ShellLexicalState::Normal => if st.escaped {
            Some("> "@)
        } else {
            None
        },
    }
}

/// More lines are needed while a quote is open or the input ends with an
/// escaping backslash; the prompt says which.
pub fn lexical_continuation_check(input: &str) -> (r: ContinuationCheck)
    ensures
        r.needs_more == (continuation_prompt(lex_state(input@)) is Some),
        match continuation_prompt(lex_state(input@)) {
            Some(p) => r.prompt matches Some(s) && s@ == p,
            None => r.prompt is None,
        },
{
    let st = lexical_state(input);
    match st.quote {
        ShellLexicalState::SingleQuoted => ContinuationCheck { needs_more: true, prompt: Some("quote> ".to_owned()) },
        ShellLexicalState::DoubleQuoted => ContinuationCheck { needs_more: true, prompt: Some("dquote> ".to_owned()) },
        ShellLexicalState::Normal => if st.escaped {
            ContinuationCheck { needs_more: true, prompt: Some("> ".to_owned()) }
        } else {
            ContinuationCheck { needs_more: false, prompt: None }
        },
    }
}

/// Whether `input` needs more lines in the backend shell; every shell is
/// judged by the same lexical rules.
pub fn input_needs_more_lines(shell_program: &str, input: &str) -> (r: ContinuationCheck)
    ensures
        r.needs_more == (continuation_prompt(lex_state(input@)) is Some),
        match continuation_prompt(lex_state(input@)) {
            Some(p) => r.prompt matches Some(s) && s@ == p,
            None => r.prompt is None,
        },
{
    lexical_continuation_check(input)
}


/// A shell's complaint says the input stopped before a construct was
/// closed: an unexpected end of input, or something left unmatched. Other
/// syntax errors do not say so.
pub open spec fn incomplete_syntax_message(stderr: Seq<char>) -> bool {
    has_infix(stderr, "unexpected EOF"@) || has_infix(stderr, "unexpected end of file"@) || has_infix(
        stderr,
        "unmatched"@,
    )
}

/// Whether the shell's syntax-check complaint means the input is
/// unfinished rather than wrong.
pub fn is_incomplete_shell_syntax(stderr: &str) -> (r: bool)
    ensures
        r == incomplete_syntax_message(stderr@),
{
    let v = str_chars(stderr);
    contains(v.as_slice(), str_chars("unexpected EOF").as_slice()) || contains(
        v.as_slice(),
        str_chars("unexpected end of file").as_slice(),
    ) || contains(v.as_slice(), str_chars("unmatched").as_slice())
}

/// The input ends with an odd run of backslashes, so its last one escapes
/// the line break to come.
pub fn ends_with_shell_line_continuation(input: &str) -> (r: bool)
    ensures
        r == (crate::pty::filter::trail_in(input@, seq!['\\']) % 2 == 1),
{
    let v = str_chars(input);
    let mut backslash: Vec<char> = Vec::new();
    backslash.push('\\');
    assert(backslash@ =~= seq!['\\']);
    crate::pty::filter::trail_in_exec(v.as_slice(), backslash.as_slice()) % 2 == 1
}

} // verus!
