//! The event log: entries, secret redaction and the recent-events view.
use vstd::prelude::*;
use crate::text::{
    decimal, has_prefix, is_ascii_alnum, join_spaces, push_chars, push_decimal, push_str_chars,
    split_whitespace, starts_with, str_chars, sub_chars, ws_words,
};

verus! {

broadcast use vstd::string::group_string_axioms;

/// How many events the log keeps by default.
pub const DEFAULT_MAX_EVENTS: usize = 1000;

#[derive(Debug, Clone, PartialEq, Eq)]
pub struct EventLogEntry {
    pub t: i64,
    pub level: EventLevel,
    pub msg: String,
}

#[derive(Debug, Clone, Copy, PartialEq, Eq, Structural)]
pub enum EventLevel {
    Info,
    Warn,
    Error,
}

impl EventLevel {
    pub open spec fn spec_name(self) -> Seq<char> {
        match self {
            EventLevel::Info => "Info"@,
            EventLevel::Warn => "Warn"@,
            EventLevel::Error => "Error"@,
        }
    }

    /// The level's name as the recent-events view shows it.
    pub fn name(self) -> (r: &'static str)
        ensures
            r@ == self.spec_name(),
    {
        match self {
            EventLevel::Info => "Info",
            EventLevel::Warn => "Warn",
            EventLevel::Error => "Error",
        }
    }
}

/// Characters kept when a word is stripped of surrounding punctuation.
pub open spec fn token_char(c: char) -> bool {
    is_ascii_alnum(c) || c == '-' || c == '_'
}

pub open spec fn lead_punct(s: Seq<char>) -> nat
    decreases s.len(),
{
    if s.len() > 0 && !token_char(s[0]) {
        1 + lead_punct(s.drop_first())
    } else {
        0
    }
}

pub open spec fn trail_punct(s: Seq<char>) -> nat
    decreases s.len(),
{
    if s.len() > 0 && !token_char(s.last()) {
        1 + trail_punct(s.drop_last())
    } else {
        0
    }
}

/// The word without the punctuation around it.
pub open spec fn core_token(w: Seq<char>) -> Seq<char> {
    let rest = w.skip(lead_punct(w) as int);
    rest.take(rest.len() - trail_punct(rest))
}

/// Words shaped like API keys and access tokens.
pub open spec fn looks_secret(w: Seq<char>) -> bool {
    let t = core_token(w);
    has_prefix(t, "sk-"@) || has_prefix(t, "sk_"@) || has_prefix(t, "ghp_"@) || has_prefix(t, "github_pat_"@)
        || has_prefix(t, "Bearer"@)
}

pub open spec fn redact_word(w: Seq<char>) -> Seq<char> {
    if looks_secret(w) {
        "[redacted]"@
    } else {
        w
    }
}

/// The words of `msg`, secret-looking ones replaced, joined by spaces.
pub open spec fn redacted(msg: Seq<char>) -> Seq<char> {
    join_spaces(ws_words(msg).map_values(|w: Seq<char>| redact_word(w)))
}

fn is_token_char(c: char) -> (r: bool)
    ensures
        r == token_char(c),
{
    ('0' <= c && c <= '9') || ('a' <= c && c <= 'z') || ('A' <= c && c <= 'Z') || c == '-' || c == '_'
}

fn core_token_of(w: &[char]) -> (r: Vec<char>)
    ensures
        r@ == core_token(w@),
{
    let mut a: usize = 0;
    proof {
        assert(w@.skip(0) =~= w@);
    }
    while a < w.len() && !is_token_char(w[a])
        invariant
            a <= w@.len(),
            lead_punct(w@) == a + lead_punct(w@.skip(a as int)),
        decreases w.len() - a,
    {
        proof {
            assert(w@.skip(a as int).drop_first() =~= w@.skip(a + 1));
        }
        a = a + 1;
    }
    proof {
        if a < w.len() {
            assert(w@.skip(a as int)[0] == w@[a as int]);
        }
    }
    let rest = sub_chars(w, a, w.len());
    let mut b: usize = rest.len();
    proof {
        assert(rest@ =~= w@.skip(a as int));
        assert(rest@.take(rest@.len() as int) =~= rest@);
    }
    while b > 0 && !is_token_char(rest[b - 1])
        invariant
            b <= rest@.len(),
            trail_punct(rest@) == (rest@.len() - b) + trail_punct(rest@.take(b as int)),
        decreases b,
    {
        proof {
            assert(rest@.take(b as int).drop_last() =~= rest@.take(b - 1));
        }
        b = b - 1;
    }
    proof {
        if b > 0 {
            assert(rest@.take(b as int).last() == rest@[b - 1]);
        }
    }
    sub_chars(rest.as_slice(), 0, b)
}

fn has_str_prefix(t: &[char], p: &str) -> (r: bool)
    ensures
        r == has_prefix(t@, p@),
{
    let pv = str_chars(p);
    starts_with(t, pv.as_slice())
}

fn looks_secret_like(w: &[char]) -> (r: bool)
    ensures
        r == looks_secret(w@),
{
    let t = core_token_of(w);
    has_str_prefix(t.as_slice(), "sk-") || has_str_prefix(t.as_slice(), "sk_") || has_str_prefix(
        t.as_slice(),
        "ghp_",
    ) || has_str_prefix(t.as_slice(), "github_pat_") || has_str_prefix(t.as_slice(), "Bearer")
}

/// Replaces each word that looks like a secret with `[redacted]`; the
/// words are joined by single spaces.
pub fn redact_secrets(msg: &str) -> (r: String)
    ensures
        r@ == redacted(msg@),
{
    let v = str_chars(msg);
    let words = split_whitespace(v.as_slice());
    let ghost ws = ws_words(msg@);
    let ghost red = ws.map_values(|w: Seq<char>| redact_word(w));
    let mut out = String::new();
    let mut i: usize = 0;
    proof {
        assert(red.take(0) =~= Seq::<Seq<char>>::empty());
    }
    while i < words.len()
        invariant
            i <= words@.len(),
            words@.len() == ws.len(),
            forall|k: int| 0 <= k < words@.len() ==> #[trigger] words@[k]@ == ws[k],
            red == ws.map_values(|w: Seq<char>| redact_word(w)),
            out@ == join_spaces(red.take(i as int)),
        decreases words.len() - i,
    {
        let ghost before = out@;
        if i > 0 {
            out.push(' ');
        }
        if looks_secret_like(words[i].as_slice()) {
            push_str_chars(&mut out, "[redacted]");
        } else {
            push_chars(&mut out, words[i].as_slice());
        }
        proof {
            let t = red.take(i + 1);
            assert(t.drop_last() =~= red.take(i as int));
            assert(t.last() == redact_word(ws[i as int]));
            if i == 0 {
                assert(t =~= seq![t[0]]);
            }
            assert(out@ =~= join_spaces(t));
        }
        i = i + 1;
    }
    proof {
        assert(red.take(red.len() as int) =~= red);
    }
    out
}

/// One event as the recent-events view shows it: time, level and message
/// separated by tabs.
pub open spec fn event_line(e: EventLogEntry) -> Seq<char> {
    decimal(e.t as int) + seq!['\t'] + e.level.spec_name() + seq!['\t'] + e.msg@
}

/// The last `count` events, oldest first.
pub fn format_recent_events(events: &[EventLogEntry], count: usize) -> (r: Vec<String>)
    ensures
        r@.len() == if events@.len() > count { count as int } else { events@.len() as int },
        forall|k: int|
            0 <= k < r@.len() ==> (#[trigger] r@[k])@ == event_line(events@[events@.len() - r@.len() + k]),
{
    let keep_from = if events.len() > count {
        events.len() - count
    } else {
        0
    };
    let mut r: Vec<String> = Vec::new();
    let mut i: usize = keep_from;
    while i < events.len()
        invariant
            keep_from <= i <= events@.len(),
            keep_from == if events@.len() > count { events@.len() - count } else { 0 },
            r@.len() == i - keep_from,
            forall|k: int| 0 <= k < r@.len() ==> (#[trigger] r@[k])@ == event_line(events@[keep_from + k]),
        decreases events.len() - i,
    {
        let e = &events[i];
        let mut line = String::new();
        push_decimal(&mut line, e.t);
        line.push('\t');
        push_str_chars(&mut line, e.level.name());
        line.push('\t');
        push_str_chars(&mut line, e.msg.as_str());
        proof {
            assert(line@ =~= event_line(*e));
        }
        r.push(line);
        i = i + 1;
    }
    r
}

/// Where trimming keeps events from: the last `max_events` remain.
pub fn trim_keep_from(len: usize, max_events: usize) -> (r: usize)
    ensures
        r == if len > max_events { len - max_events } else { 0 },
{
    if len > max_events {
        len - max_events
    } else {
        0
    }
}

} // verus!
