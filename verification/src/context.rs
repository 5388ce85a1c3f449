//! Policies around running a command to give the assistant context.
use vstd::prelude::*;
use crate::log::{redact_secrets, redacted};
use crate::encryption::{lossy_text, utf8_lossy};
use crate::text::{contains, decimal, has_infix, push_decimal, push_str_chars, str_chars, trim, trim_chars};

verus! {

broadcast use vstd::string::group_string_axioms;

/// What a context command printed, how it exited, and whether the output
/// was cut to the byte limit.
#[derive(Debug, Clone, PartialEq, Eq)]
pub struct ContextCommandResult {
    pub output: String,
    pub exit_code: Option<i32>,
    pub truncated: bool,
}

pub open spec fn ascii_lower(c: char) -> char {
    if 'A' <= c && c <= 'Z' {
        ((c as u32) + 32) as char
    } else {
        c
    }
}

pub open spec fn lowered(s: Seq<char>) -> Seq<char> {
    s.map_values(|c: char| ascii_lower(c))
}

/// Fragments of commands that destroy data or take over the machine.
pub open spec fn dangerous_patterns() -> Seq<Seq<char>> {
    seq![
        "rm -rf"@,
        "rm -fr"@,
        "sudo "@,
        "doas "@,
        "mkfs"@,
        "dd if="@,
        "diskutil erase"@,
        "shutdown"@,
        "reboot"@,
        ":(){"@,
    ]
}

/// The command, trimmed and lowercased (ASCII), holds a dangerous
/// fragment.
pub open spec fn dangerous(command: Seq<char>) -> bool {
    let c = lowered(trim(command));
    c.len() > 0 && exists|k: int| 0 <= k < dangerous_patterns().len() && has_infix(c, #[trigger] dangerous_patterns()[k])
}

fn lower_char(c: char) -> (r: char)
    ensures
        r == ascii_lower(c),
{
    if 'A' <= c && c <= 'Z' {
        let v = (c as u8) + 32;
        v as char
    } else {
        c
    }
}

pub fn is_dangerous_context_command(command: &str) -> (r: bool)
    ensures
        r == dangerous(command@),
{
    let v = str_chars(command);
    let t = trim_chars(v.as_slice());
    let mut low: Vec<char> = Vec::new();
    let mut i: usize = 0;
    while i < t.len()
        invariant
            i <= t@.len(),
            low@ == lowered(t@.take(i as int)),
        decreases t.len() - i,
    {
        low.push(lower_char(t[i]));
        i = i + 1;
        assert(low@ =~= lowered(t@.take(i as int)));
    }
    proof {
        assert(t@.take(t@.len() as int) =~= t@);
    }
    if low.len() == 0 {
        return false;
    }
    let patterns: [&str; 10] = [
        "rm -rf",
        "rm -fr",
        "sudo ",
        "doas ",
        "mkfs",
        "dd if=",
        "diskutil erase",
        "shutdown",
        "reboot",
        ":(){",
    ];
    let mut k: usize = 0;
    while k < 10
        invariant
            k <= 10,
            patterns@ =~= seq![
                "rm -rf",
                "rm -fr",
                "sudo ",
                "doas ",
                "mkfs",
                "dd if=",
                "diskutil erase",
                "shutdown",
                "reboot",
                ":(){",
            ],
            low@ == lowered(trim(command@)),
            low@.len() > 0,
            forall|j: int| 0 <= j < k ==> !has_infix(low@, #[trigger] dangerous_patterns()[j]),
        decreases 10 - k,
    {
        let p = str_chars(patterns[k]);
        if contains(low.as_slice(), p.as_slice()) {
            assert(has_infix(low@, dangerous_patterns()[k as int]));
            return true;
        }
        k = k + 1;
    }
    false
}

pub open spec fn exit_text(code: Option<i32>) -> Seq<char> {
    match code {
        Some(c) => decimal(c as int),
        None => "unknown"@,
    }
}

/// The prompt sent with context: the user's prompt, the command and its
/// exit status, and the output (marked when truncated) in a text fence,
/// with secret-looking words redacted from the command and the output.
pub open spec fn contextual_prompt(prompt: Seq<char>, command: Seq<char>, result: ContextCommandResult) -> Seq<
    char,
> {
    "User prompt:\n"@ + prompt + "\n\nContext command:\n"@ + redacted(command) + "\n\nContext exit status: "@
        + exit_text(result.exit_code) + "\n\nContext output"@ + (if result.truncated {
        " truncated to configured byte limit"@
    } else {
        seq![]
    }) + ":\n```text\n"@ + redacted(result.output@) + "\n```"@
}

pub fn build_contextual_ai_prompt(prompt: &str, command: &str, result: &ContextCommandResult) -> (r: String)
    ensures
        r@ == contextual_prompt(prompt@, command@, *result),
{
    let mut out = String::new();
    push_str_chars(&mut out, "User prompt:\n");
    push_str_chars(&mut out, prompt);
    push_str_chars(&mut out, "\n\nContext command:\n");
    let c = redact_secrets(command);
    push_str_chars(&mut out, c.as_str());
    push_str_chars(&mut out, "\n\nContext exit status: ");
    match result.exit_code {
        Some(code) => push_decimal(&mut out, code as i64),
        None => push_str_chars(&mut out, "unknown"),
    }
    push_str_chars(&mut out, "\n\nContext output");
    if result.truncated {
        push_str_chars(&mut out, " truncated to configured byte limit");
    }
    push_str_chars(&mut out, ":\n```text\n");
    let o = redact_secrets(result.output.as_str());
    push_str_chars(&mut out, o.as_str());
    push_str_chars(&mut out, "\n```");
    proof {
        assert(out@ =~= contextual_prompt(prompt@, command@, *result));
    }
    out
}

// ---------------------------------------------------------------------
// Capturing the output
// ---------------------------------------------------------------------

/// What was read of one output stream, up to a byte limit.
#[derive(Debug, Clone, PartialEq, Eq)]
pub struct CappedStream {
    pub bytes: Vec<u8>,
    pub truncated: bool,
}

/// How many bytes of a chunk of `n` fit after `len` bytes under `limit`.
pub open spec fn kept_of(len: nat, n: nat, limit: nat) -> nat {
    let room: nat = if limit > len {
        (limit - len) as nat
    } else {
        0
    };
    if room < n {
        room
    } else {
        n
    }
}

impl CappedStream {
    pub fn new() -> (r: Self)
        ensures
            r.bytes@ == Seq::<u8>::empty(),
            !r.truncated,
    {
        CappedStream { bytes: Vec::new(), truncated: false }
    }

    /// Takes in a chunk read from the stream: what fits under `limit` is
    /// kept, and the stream is truncated when some of it did not fit.
    pub fn push_chunk(&mut self, chunk: &[u8], limit: usize)
        ensures
            final(self).bytes@ == old(self).bytes@ + chunk@.take(
                kept_of(old(self).bytes@.len(), chunk@.len(), limit as nat) as int,
            ),
            final(self).truncated == (old(self).truncated || kept_of(
                old(self).bytes@.len(),
                chunk@.len(),
                limit as nat,
            ) < chunk@.len()),
    {
        let room = if limit > self.bytes.len() {
            limit - self.bytes.len()
        } else {
            0
        };
        let kept = if room < chunk.len() {
            room
        } else {
            chunk.len()
        };
        let ghost start = self.bytes@;
        let mut i: usize = 0;
        while i < kept
            invariant
                i <= kept <= chunk@.len(),
                start == old(self).bytes@,
                kept == kept_of(start.len(), chunk@.len(), limit as nat),
                self.truncated == old(self).truncated,
                self.bytes@ == start + chunk@.take(i as int),
            decreases kept - i,
        {
            self.bytes.push(chunk[i]);
            i = i + 1;
            assert(self.bytes@ =~= start + chunk@.take(i as int));
        }
        if kept < chunk.len() {
            self.truncated = true;
        }
    }
}

/// The text `[stderr]` and a line break, as bytes.
pub open spec fn stderr_heading() -> Seq<u8> {
    seq![91u8, 115, 116, 100, 101, 114, 114, 93, 10]
}

/// Standard output, then, when there is any, a heading and standard error
/// on a line of their own.
pub open spec fn combined_output(out: Seq<u8>, err: Seq<u8>) -> Seq<u8> {
    if err.len() == 0 {
        out
    } else {
        (if out.len() > 0 && out.last() != 10 {
            out.push(10)
        } else {
            out
        }) + stderr_heading() + err
    }
}

fn extend_bytes(out: &mut Vec<u8>, b: &[u8])
    ensures
        final(out)@ == old(out)@ + b@,
{
    let ghost start = out@;
    let mut i: usize = 0;
    while i < b.len()
        invariant
            i <= b@.len(),
            out@ == start + b@.take(i as int),
        decreases b@.len() - i,
    {
        out.push(b[i]);
        i = i + 1;
        assert(out@ =~= start + b@.take(i as int));
    }
    assert(b@.take(i as int) =~= b@);
}

pub fn combine_stdout_stderr(stdout: &[u8], stderr: &[u8]) -> (r: Vec<u8>)
    ensures
        r@ == combined_output(stdout@, stderr@),
{
    let mut combined: Vec<u8> = Vec::new();
    extend_bytes(&mut combined, stdout);
    assert(combined@ =~= stdout@);
    if stderr.len() > 0 {
        if combined.len() > 0 && combined[combined.len() - 1] != 10 {
            combined.push(10);
        }
        let heading: Vec<u8> = vec![91u8, 115, 116, 100, 101, 114, 114, 93, 10];
        assert(heading@ =~= stderr_heading());
        extend_bytes(&mut combined, heading.as_slice());
        extend_bytes(&mut combined, stderr);
    }
    combined
}

/// The note that a timed-out command gets on standard error.
pub open spec fn timeout_note(timeout_ms: u64) -> Seq<char> {
    "context command timed out after "@ + decimal(timeout_ms as int) + " ms\n"@
}

/// Standard error of a timed-out command: the note on a line of its own.
pub open spec fn with_timeout_note(err: Seq<u8>, timeout_ms: u64) -> Seq<u8> {
    (if err.len() > 0 && err.last() != 10 {
        err.push(10)
    } else {
        err
    }) + vstd::utf8::encode_utf8(timeout_note(timeout_ms))
}

pub fn note_timeout(stderr: &mut Vec<u8>, timeout_ms: u64)
    ensures
        final(stderr)@ == with_timeout_note(old(stderr)@, timeout_ms),
{
    if stderr.len() > 0 && stderr[stderr.len() - 1] != 10 {
        stderr.push(10);
    }
    let mut note = String::new();
    push_str_chars(&mut note, "context command timed out after ");
    crate::text::push_digits(&mut note, timeout_ms);
    push_str_chars(&mut note, " ms\n");
    assert(note@ =~= timeout_note(timeout_ms));
    let bytes = note.as_str().as_bytes();
    extend_bytes(stderr, bytes);
}

/// Whether `bytes` are well-formed UTF-8, as `std::str::from_utf8` decides.
#[verifier::external_body]
fn utf8_is_valid(bytes: &[u8]) -> (r: bool)
    ensures
        r == vstd::utf8::valid_utf8(bytes@),
{
    std::str::from_utf8(bytes).is_ok()
}

/// The longest prefix of at most `e` bytes that is well-formed UTF-8.
pub open spec fn utf8_floor(b: Seq<u8>, e: int) -> int
    decreases e,
{
    if e <= 0 || vstd::utf8::valid_utf8(b.take(e)) {
        e
    } else {
        utf8_floor(b, e - 1)
    }
}

/// Bytes read as text: well-formed UTF-8 is decoded as it is; other bytes
/// as `String::from_utf8_lossy` reads them.
pub open spec fn text_of(b: Seq<u8>) -> Seq<char> {
    if vstd::utf8::valid_utf8(b) {
        vstd::utf8::decode_utf8(b)
    } else {
        utf8_lossy(b)
    }
}

/// The output as text within `max_bytes`: all of it when it fits, else
/// the longest well-formed prefix within the limit, marked as cut.
pub open spec fn capped_text(b: Seq<u8>, max_bytes: nat) -> (Seq<char>, bool) {
    if b.len() <= max_bytes {
        (text_of(b), false)
    } else {
        (text_of(b.take(utf8_floor(b, max_bytes as int))), true)
    }
}

pub fn cap_utf8(bytes: &[u8], max_bytes: usize) -> (r: (String, bool))
    ensures
        (r.0@, r.1) == capped_text(bytes@, max_bytes as nat),
{
    if bytes.len() <= max_bytes {
        return (lossy_text(bytes), false);
    }
    let mut end = max_bytes;
    loop
        invariant
            end <= max_bytes < bytes@.len(),
            utf8_floor(bytes@, max_bytes as int) == utf8_floor(bytes@, end as int),
        decreases end,
    {
        let prefix = bytes_prefix(bytes, end);
        if end == 0 || utf8_is_valid(prefix.as_slice()) {
            return (lossy_text(prefix.as_slice()), true);
        }
        end = end - 1;
    }
}

fn bytes_prefix(b: &[u8], n: usize) -> (r: Vec<u8>)
    requires
        n <= b@.len(),
    ensures
        r@ == b@.take(n as int),
{
    let mut out: Vec<u8> = Vec::new();
    let mut i: usize = 0;
    while i < n
        invariant
            i <= n <= b@.len(),
            out@ == b@.take(i as int),
        decreases n - i,
    {
        out.push(b[i]);
        i = i + 1;
        assert(out@ =~= b@.take(i as int));
    }
    out
}

/// The result of a context command from what its streams gave, whether
/// it timed out (after `timeout_ms`), how it exited, and the byte limit.
pub fn context_command_result(
    stdout: CappedStream,
    stderr: CappedStream,
    timed_out: bool,
    timeout_ms: u64,
    exit_code: Option<i32>,
    max_bytes: usize,
) -> (r: ContextCommandResult)
    ensures
        ({
            let err = if timed_out {
                with_timeout_note(stderr.bytes@, timeout_ms)
            } else {
                stderr.bytes@
            };
            let (text, cut) = capped_text(combined_output(stdout.bytes@, err), max_bytes as nat);
            &&& r.output@ == text
            &&& r.exit_code == exit_code
            &&& r.truncated == (stdout.truncated || stderr.truncated || cut)
        }),
{
    let mut err = stderr.bytes;
    if timed_out {
        note_timeout(&mut err, timeout_ms);
    }
    let combined = combine_stdout_stderr(stdout.bytes.as_slice(), err.as_slice());
    let (output, cut) = cap_utf8(combined.as_slice(), max_bytes);
    ContextCommandResult { output, exit_code, truncated: stdout.truncated || stderr.truncated || cut }
}

} // verus!
