//! The background writer of encrypted JSONL files: its operations, the
//! events it reports, and its rule that one failure stops every later
//! write until the failure is seen.
use vstd::prelude::*;
use crate::text::push_str_chars;

verus! {

broadcast use vstd::string::group_string_axioms;

/// What the writer was asked to do to a file.
#[derive(Debug, Clone, Copy, PartialEq, Eq, Structural)]
pub enum EncryptedWriteOperation {
    AppendJsonl,
    RewriteJsonl,
}

impl EncryptedWriteOperation {
    pub open spec fn name(self) -> Seq<char> {
        match self {
            EncryptedWriteOperation::AppendJsonl => "append-jsonl"@,
            EncryptedWriteOperation::RewriteJsonl => "rewrite-jsonl"@,
        }
    }

    pub fn as_str(self) -> (r: &'static str)
        ensures
            r@ == self.name(),
    {
        match self {
            EncryptedWriteOperation::AppendJsonl => "append-jsonl",
            EncryptedWriteOperation::RewriteJsonl => "rewrite-jsonl",
        }
    }
}

/// What came of one write: the operation, the file, and the error if it
/// failed.
#[derive(Debug, Clone, PartialEq, Eq)]
pub struct EncryptedWriteEvent {
    pub operation: EncryptedWriteOperation,
    pub path: String,
    pub error: Option<String>,
}

pub open spec fn opt_text(o: Option<String>) -> Option<Seq<char>> {
    match o {
        Some(s) => Some(s@),
        None => None,
    }
}

/// Why a write is refused once an earlier one failed with `error`.
pub open spec fn stopped_message(error: Seq<char>) -> Seq<char> {
    "encrypted writer is stopped after a previous failure: "@ + error
}

/// The refusal of a write after an earlier failure; `None` while nothing
/// has failed, when the write goes ahead.
pub fn refusal_after_failure(failure: &Option<String>) -> (r: Option<String>)
    ensures
        match failure {
            Some(e) => r matches Some(m) && m@ == stopped_message(e@),
            None => r is None,
        },
{
    match failure {
        Some(e) => {
            let mut m = "encrypted writer is stopped after a previous failure: ".to_string();
            push_str_chars(&mut m, e.as_str());
            Some(m)
        },
        None => None,
    }
}

/// Reports a write: the event carries its error, and the first error the
/// writer meets becomes its failure, which later errors do not replace.
pub fn record_write(
    failure: &mut Option<String>,
    operation: EncryptedWriteOperation,
    path: String,
    error: Option<String>,
) -> (r: EncryptedWriteEvent)
    ensures
        r.operation == operation,
        r.path@ == path@,
        opt_text(r.error) == opt_text(error),
        opt_text(*final(failure)) == (match *old(failure) {
            Some(f) => Some(f@),
            None => opt_text(error),
        }),
{
    if failure.is_none() {
        *failure = match &error {
            Some(e) => Some(e.clone()),
            None => None,
        };
    }
    EncryptedWriteEvent { operation, path, error }
}

/// What a flush answers: the writer's failure, if any.
pub fn flush_result(failure: &Option<String>) -> (r: Result<(), String>)
    ensures
        match failure {
            Some(e) => r matches Err(m) && m@ == e@,
            None => r is Ok,
        },
{
    match failure {
        Some(e) => Err(e.clone()),
        None => Ok(()),
    }
}

/// The plaintext after appending a serialized record to `existing`: the
/// record and a line break after what was there.
pub fn appended_jsonl_bytes(existing: &[u8], item_json: &[u8]) -> (r: Vec<u8>)
    ensures
        r@ == existing@ + item_json@ + seq![10u8],
{
    let mut out: Vec<u8> = Vec::new();
    let mut i: usize = 0;
    while i < existing.len()
        invariant
            i <= existing@.len(),
            out@ == existing@.take(i as int),
        decreases existing.len() - i,
    {
        out.push(existing[i]);
        i = i + 1;
        assert(out@ =~= existing@.take(i as int));
    }
    let mut k: usize = 0;
    while k < item_json.len()
        invariant
            k <= item_json@.len(),
            out@ == existing@ + item_json@.take(k as int),
        decreases item_json.len() - k,
    {
        out.push(item_json[k]);
        k = k + 1;
        assert(out@ =~= existing@ + item_json@.take(k as int));
    }
    assert(item_json@.take(item_json@.len() as int) =~= item_json@);
    out.push(10u8);
    out
}

} // verus!
