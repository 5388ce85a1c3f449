//! The markers that the backend shell prints around commands, and the
//! commands that make it print them.
use vstd::prelude::*;
use crate::text::{digits, push_digits, push_str_chars};

verus! {

broadcast use vstd::string::group_string_axioms;

/// Printed when a command's exit status follows.
pub const MARKER_PREFIX: &'static str = "__AISH_STATUS__";

/// Printed when the shell is ready for the next command.
pub const READY_MARKER: &'static str = "__AISH_READY__";

/// Printed when the shell starts running a command.
pub const START_MARKER: &'static str = "__AISH_START__";

pub open spec fn ready_text() -> Seq<char> {
    "__AISH_READY__"@
}

pub open spec fn start_text() -> Seq<char> {
    "__AISH_START__"@
}

pub fn ready_marker() -> (r: &'static str)
    ensures
        r@ == ready_text(),
{
    "__AISH_READY__"
}

pub fn start_marker() -> (r: &'static str)
    ensures
        r@ == start_text(),
{
    "__AISH_START__"
}

pub open spec fn status_command_head() -> Seq<char> {
    " __aish_status=$?; command -v __aish_run_prompt_command >/dev/null 2>&1 && __aish_run_prompt_command >/dev/null 2>&1; printf '\\n%s%s\\t%s\\n' '"@
}

pub open spec fn status_command_tail() -> Seq<char> {
    "' \"$__aish_status\" \"$PWD\"; __aish_preserve_status() { return \"$1\"; }; __aish_preserve_status \"$__aish_status\"\n"@
}

/// The command that prints `marker`, the exit status and the working
/// directory, and keeps the exit status.
pub fn status_marker_command(marker: &str) -> (r: String)
    ensures
        r@ == status_command_head() + marker@ + status_command_tail(),
{
    let mut s = String::new();
    push_str_chars(
        &mut s,
        " __aish_status=$?; command -v __aish_run_prompt_command >/dev/null 2>&1 && __aish_run_prompt_command >/dev/null 2>&1; printf '\\n%s%s\\t%s\\n' '",
    );
    push_str_chars(&mut s, marker);
    push_str_chars(
        &mut s,
        "' \"$__aish_status\" \"$PWD\"; __aish_preserve_status() { return \"$1\"; }; __aish_preserve_status \"$__aish_status\"\n",
    );
    s
}

pub open spec fn hex_chars() -> Seq<char> {
    seq!['0', '1', '2', '3', '4', '5', '6', '7', '8', '9', 'a', 'b', 'c', 'd', 'e', 'f']
}

/// Two lowercase hex digits per byte.
pub open spec fn hex_of(bytes: Seq<u8>) -> Seq<char>
    decreases bytes.len(),
{
    if bytes.len() == 0 {
        seq![]
    } else {
        hex_of(bytes.drop_last()) + seq![
            hex_chars()[(bytes.last() / 16) as int],
            hex_chars()[(bytes.last() % 16) as int],
        ]
    }
}

fn hex_char(v: u8) -> (c: char)
    requires
        v < 16,
    ensures
        c == hex_chars()[v as int],
{
    match v {
        0 => '0',
        1 => '1',
        2 => '2',
        3 => '3',
        4 => '4',
        5 => '5',
        6 => '6',
        7 => '7',
        8 => '8',
        9 => '9',
        10 => 'a',
        11 => 'b',
        12 => 'c',
        13 => 'd',
        14 => 'e',
        _ => 'f',
    }
}

pub fn hex_bytes(bytes: &[u8]) -> (r: String)
    ensures
        r@ == hex_of(bytes@),
{
    let mut out = String::new();
    let mut i: usize = 0;
    proof {
        assert(bytes@.take(0) =~= Seq::<u8>::empty());
    }
    while i < bytes.len()
        invariant
            i <= bytes@.len(),
            out@ == hex_of(bytes@.take(i as int)),
        decreases bytes.len() - i,
    {
        proof {
            assert(bytes@.take(i + 1).drop_last() =~= bytes@.take(i as int));
        }
        let b = bytes[i];
        out.push(hex_char(b / 16));
        out.push(hex_char(b % 16));
        i = i + 1;
        assert(out@ =~= hex_of(bytes@.take(i as int)));
    }
    proof {
        assert(bytes@.take(bytes@.len() as int) =~= bytes@);
    }
    out
}

/// Sixteen bytes from `getrandom::fill`, or `None` when the system
/// source of randomness failed; which bytes come is left open.
#[verifier::external_body]
fn random_bytes() -> (r: Option<Vec<u8>>)
    ensures
        r matches Some(v) ==> v@.len() == 16,
{
    let mut buf = [0u8; 16];
    match getrandom::fill(&mut buf) {
        Ok(()) => Some(buf.to_vec()),
        Err(_) => None,
    }
}

/// A per-session token for status markers: 32 hex digits from the system's
/// randomness, or `fallback` when it is not available.
pub fn marker_token(fallback: &str) -> (r: String)
    ensures
        r@ == fallback@ || exists|b: Seq<u8>| b.len() == 16 && r@ == hex_of(b),
{
    match random_bytes() {
        Some(v) => hex_bytes(v.as_slice()),
        None => fallback.to_owned(),
    }
}

/// The status marker of command number `id` in the session with `token`.
pub fn next_marker(token: &str, id: u64) -> (r: String)
    ensures
        r@ == "__AISH_STATUS__"@ + token@ + seq!['_'] + digits(id as nat) + seq!['_', '_'],
{
    let mut s = String::new();
    push_str_chars(&mut s, "__AISH_STATUS__");
    push_str_chars(&mut s, token);
    s.push('_');
    push_digits(&mut s, id);
    s.push('_');
    s.push('_');
    assert(s@ =~= "__AISH_STATUS__"@ + token@ + seq!['_'] + digits(id as nat) + seq!['_', '_']);
    s
}

} // verus!
