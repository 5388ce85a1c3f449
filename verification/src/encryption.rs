//! Encryption at rest with GPG: file naming, the encrypt command, reading
//! GPG's diagnostics, splitting concatenated OpenPGP messages and reading
//! key listings.
use vstd::prelude::*;
use crate::text::{
    has_prefix, lines_of, push_chars, push_str_chars, starts_with, str_chars, sub_chars, text_lines,
    trim, trim_chars,
};

verus! {

broadcast use vstd::string::group_string_axioms;

pub open spec fn git_history_warning_text() -> Seq<char> {
    "Encryption is now enabled for future writes.\nAish will sync encrypted files from now on.\nGit history may still contain plaintext data or encrypted data written for an older key.\nAish will not rewrite git history automatically; history rewrite requires an explicit backup and old-key re-encryption flow."@
}

/// The notice shown when encryption is turned on: earlier plaintext stays
/// in git history.
pub fn encryption_git_history_warning() -> (r: &'static str)
    ensures
        r@ == git_history_warning_text(),
{
    "Encryption is now enabled for future writes.\nAish will sync encrypted files from now on.\nGit history may still contain plaintext data or encrypted data written for an older key.\nAish will not rewrite git history automatically; history rewrite requires an explicit backup and old-key re-encryption flow."
}

/// The extension of a path, as `std::path::Path::extension` gives it.
pub uninterp spec fn path_extension_of(path: Seq<char>) -> Option<Seq<char>>;

/// The path with its extension replaced, as
/// `std::path::Path::with_extension` gives it.
pub uninterp spec fn path_with_extension_of(path: Seq<char>, extension: Seq<char>) -> Seq<char>;

/// `std::path::Path::extension` of a path given as text.
#[verifier::external_body]
fn path_extension(path: &str) -> (r: Option<String>)
    ensures
        match r {
            Some(e) => path_extension_of(path@) == Some(e@) && !e@.contains('/'),
            None => path_extension_of(path@) is None,
        },
{
    std::path::Path::new(path).extension().and_then(|e| e.to_str()).map(|e| e.to_owned())
}

/// `std::path::Path::with_extension` of a path given as text. The call
/// panics on an extension that holds a path separator, so such an
/// extension is not admitted.
#[verifier::external_body]
fn path_with_extension(path: &str, extension: &str) -> (r: String)
    requires
        !extension@.contains('/'),
    ensures
        r@ == path_with_extension_of(path@, extension@),
{
    std::path::Path::new(path).with_extension(extension).display().to_string()
}

proof fn lemma_no_slash_concat(a: Seq<char>, b: Seq<char>)
    requires
        !a.contains('/'),
        !b.contains('/'),
    ensures
        !(a + b).contains('/'),
{
    if (a + b).contains('/') {
        let k = choose|k: int| 0 <= k < (a + b).len() && (a + b)[k] == '/';
        if k < a.len() {
            assert(a[k] == '/');
        } else {
            assert(b[k - a.len()] == '/');
        }
    }
}

/// The encrypted file's path: `.gpg` added after the current extension.
pub open spec fn encrypted_path_of(path: Seq<char>) -> Seq<char> {
    path_with_extension_of(
        path,
        match path_extension_of(path) {
            Some(e) => e + ".gpg"@,
            None => "gpg"@,
        },
    )
}

pub fn encrypted_path(path: &str) -> (r: String)
    ensures
        r@ == encrypted_path_of(path@),
{
    proof {
        reveal_strlit(".gpg");
        reveal_strlit("gpg");
    }
    let next = match path_extension(path) {
        Some(e) => {
            let ghost ev = e@;
            let mut n = e;
            push_str_chars(&mut n, ".gpg");
            proof {
                lemma_no_slash_concat(ev, ".gpg"@);
            }
            n
        },
        None => "gpg".to_owned(),
    };
    path_with_extension(path, next.as_str())
}

/// The GPG command that encrypts one file for one recipient.
#[derive(Debug, Clone, PartialEq, Eq)]
pub struct GpgEncryptPlan {
    pub program: String,
    pub args: Vec<String>,
}

pub open spec fn encrypt_args(recipient: Seq<char>, input: Seq<char>, output: Seq<char>) -> Seq<Seq<char>> {
    seq![
        "--batch"@,
        "--yes"@,
        "--no-tty"@,
        "--trust-model"@,
        "always"@,
        "--encrypt"@,
        "--recipient"@,
        recipient,
        "--output"@,
        output,
        "--"@,
        input,
    ]
}

/// Batch encryption of `input` into `output`, trusting the recipient's
/// key, with `--` before the input path.
pub fn gpg_encrypt_plan(gpg_program: &str, recipient: &str, input: &str, output: &str) -> (r: GpgEncryptPlan)
    ensures
        r.program@ == gpg_program@,
        r.args@.map_values(|a: String| a@) == encrypt_args(recipient@, input@, output@),
{
    let mut args: Vec<String> = Vec::new();
    args.push("--batch".to_owned());
    args.push("--yes".to_owned());
    args.push("--no-tty".to_owned());
    args.push("--trust-model".to_owned());
    args.push("always".to_owned());
    args.push("--encrypt".to_owned());
    args.push("--recipient".to_owned());
    args.push(recipient.to_owned());
    args.push("--output".to_owned());
    args.push(output.to_owned());
    args.push("--".to_owned());
    args.push(input.to_owned());
    assert(args@.map_values(|a: String| a@) =~= encrypt_args(recipient@, input@, output@));
    GpgEncryptPlan { program: gpg_program.to_owned(), args }
}

/// The arguments that decrypt `input` to standard output. Without a
/// terminal at hand the run is batched and never asks for a passphrase.
pub open spec fn decrypt_args(input: Seq<char>, noninteractive: bool) -> Seq<Seq<char>> {
    if noninteractive {
        seq!["--batch"@, "--yes"@, "--pinentry-mode"@, "error"@, "--decrypt"@, "--"@, input]
    } else {
        seq!["--yes"@, "--decrypt"@, "--"@, input]
    }
}

pub fn gpg_decrypt_args(input: &str, noninteractive: bool) -> (r: Vec<String>)
    ensures
        r@.map_values(|a: String| a@) == decrypt_args(input@, noninteractive),
{
    let mut args: Vec<String> = Vec::new();
    if noninteractive {
        args.push("--batch".to_owned());
        args.push("--yes".to_owned());
        args.push("--pinentry-mode".to_owned());
        args.push("error".to_owned());
    } else {
        args.push("--yes".to_owned());
    }
    args.push("--decrypt".to_owned());
    args.push("--".to_owned());
    args.push(input.to_owned());
    assert(args@.map_values(|a: String| a@) =~= decrypt_args(input@, noninteractive));
    args
}

/// The files an atomic encrypted write goes through.
#[derive(Debug, Clone, PartialEq, Eq)]
pub struct AtomicGpgWritePaths {
    pub plaintext_tmp: String,
    pub encrypted_tmp: String,
    pub final_path: String,
}

/// Temporary files next to the final one: its extension followed by
/// `.tmp` for the encrypted file, `plain.tmp` for the plaintext.
pub fn atomic_gpg_write_paths(final_path: &str) -> (r: AtomicGpgWritePaths)
    ensures
        r.final_path@ == final_path@,
        r.encrypted_tmp@ == path_with_extension_of(
            final_path@,
            match path_extension_of(final_path@) {
                Some(e) => e,
                None => "gpg"@,
            } + ".tmp"@,
        ),
        r.plaintext_tmp@ == path_with_extension_of(final_path@, "plain.tmp"@),
{
    proof {
        reveal_strlit("gpg");
        reveal_strlit(".tmp");
        reveal_strlit("plain.tmp");
    }
    let mut ext = match path_extension(final_path) {
        Some(e) => e,
        None => "gpg".to_owned(),
    };
    let ghost before = ext@;
    push_str_chars(&mut ext, ".tmp");
    proof {
        lemma_no_slash_concat(before, ".tmp"@);
    }
    AtomicGpgWritePaths {
        plaintext_tmp: path_with_extension(final_path, "plain.tmp"),
        encrypted_tmp: path_with_extension(final_path, ext.as_str()),
        final_path: final_path.to_owned(),
    }
}

/// The text that `String::from_utf8_lossy` makes of some bytes.
pub uninterp spec fn utf8_lossy(bytes: Seq<u8>) -> Seq<char>;

/// `String::from_utf8_lossy`: valid UTF-8 is decoded as it is; invalid
/// sequences become U+FFFD (what those look like is left to the name).
#[verifier::external_body]
pub(crate) fn lossy_text(bytes: &[u8]) -> (r: String)
    ensures
        r@ == utf8_lossy(bytes@),
        vstd::utf8::valid_utf8(bytes@) ==> r@ == vstd::utf8::decode_utf8(bytes@),
{
    String::from_utf8_lossy(bytes).into_owned()
}

/// Pieces joined by `sep`.
pub open spec fn join_with(pieces: Seq<Seq<char>>, sep: Seq<char>) -> Seq<char>
    decreases pieces.len(),
{
    if pieces.len() == 0 {
        seq![]
    } else if pieces.len() == 1 {
        pieces[0]
    } else {
        join_with(pieces.drop_last(), sep) + sep + pieces.last()
    }
}

/// GPG's lines that say which key was used, not what went wrong.
pub open spec fn gpg_noise(line: Seq<char>) -> bool {
    has_prefix(line, "gpg: encrypted with "@) || has_prefix(line, "\""@) || has_prefix(line, "\u{201c}"@)
}

/// A short summary of GPG's error output: its last three non-blank lines
/// that are not key notices (or of all lines when every line is one),
/// joined by `; `, cut to 500 characters; `fallback` when there are none.
pub open spec fn stderr_summary(stderr: Seq<u8>, fallback: Seq<char>) -> Seq<char> {
    let lines = text_lines(utf8_lossy(stderr)).map_values(|l: Seq<char>| trim(l)).filter(
        |l: Seq<char>| l.len() > 0,
    );
    let relevant = lines.filter(|l: Seq<char>| !gpg_noise(l));
    let source = if relevant.len() == 0 {
        lines
    } else {
        relevant
    };
    let last = source.skip(if source.len() > 3 { source.len() - 3 } else { 0 });
    let summary = join_with(last, seq![';', ' ']);
    if lines.len() == 0 {
        fallback
    } else if summary.len() > 500 {
        summary.take(500) + "..."@
    } else {
        summary
    }
}

fn has_str_prefix(t: &[char], p: &str) -> (r: bool)
    ensures
        r == has_prefix(t@, p@),
{
    let pv = str_chars(p);
    starts_with(t, pv.as_slice())
}

pub fn gpg_stderr_summary(stderr: &[u8], fallback: &str) -> (r: String)
    ensures
        r@ == stderr_summary(stderr@, fallback@),
{
    let text = lossy_text(stderr);
    let v = str_chars(text.as_str());
    let raw = lines_of(v.as_slice());
    let ghost tl = text_lines(utf8_lossy(stderr@));
    let ghost trimmed = tl.map_values(|l: Seq<char>| trim(l));
    let ghost nonblank = |l: Seq<char>| l.len() > 0;
    let ghost quiet = |l: Seq<char>| !gpg_noise(l);
    let mut lines: Vec<Vec<char>> = Vec::new();
    let mut relevant: Vec<Vec<char>> = Vec::new();
    let mut i: usize = 0;
    while i < raw.len()
        invariant
            i <= raw@.len(),
            raw@.map_values(|l: Vec<char>| l@) == tl,
            trimmed == tl.map_values(|l: Seq<char>| trim(l)),
            nonblank == (|l: Seq<char>| l.len() > 0),
            quiet == (|l: Seq<char>| !gpg_noise(l)),
            lines@.map_values(|l: Vec<char>| l@) == trimmed.take(i as int).filter(nonblank),
            relevant@.map_values(|l: Vec<char>| l@) == trimmed.take(i as int).filter(nonblank).filter(quiet),
        decreases raw.len() - i,
    {
        let t = trim_chars(raw[i].as_slice());
        proof {
            assert(trimmed.take(i + 1).drop_last() =~= trimmed.take(i as int));
            assert(trimmed.take(i + 1).last() == t@);
            reveal_with_fuel(Seq::filter, 1);
        }
        if t.len() > 0 {
            let ghost before = lines@.map_values(|l: Vec<char>| l@);
            let ghost before_r = relevant@.map_values(|l: Vec<char>| l@);
            let noise = has_str_prefix(t.as_slice(), "gpg: encrypted with ") || has_str_prefix(t.as_slice(), "\"")
                || has_str_prefix(t.as_slice(), "\u{201c}");
            if !noise {
                let copy = sub_chars(t.as_slice(), 0, t.len());
                relevant.push(copy);
                proof {
                    assert(copy@ =~= t@);
                    assert(relevant@.map_values(|l: Vec<char>| l@) =~= before_r.push(t@));
                }
            }
            lines.push(t);
            proof {
                assert(lines@.map_values(|l: Vec<char>| l@) =~= before.push(t@));
                let f = trimmed.take(i + 1).filter(nonblank);
                assert(f.drop_last() =~= trimmed.take(i as int).filter(nonblank));
                assert(f =~= trimmed.take(i as int).filter(nonblank).push(t@));
                assert(f.last() == t@);
            }
        } else {
            proof {
                assert(trimmed.take(i + 1).filter(nonblank) =~= trimmed.take(i as int).filter(nonblank));
            }
        }
        i = i + 1;
    }
    proof {
        assert(trimmed.take(trimmed.len() as int) =~= trimmed);
    }
    if lines.len() == 0 {
        return fallback.to_owned();
    }
    let source = if relevant.len() == 0 {
        lines
    } else {
        relevant
    };
    let n = source.len();
    let start = if n > 3 {
        n - 3
    } else {
        0
    };
    let ghost src = source@.map_values(|l: Vec<char>| l@);
    let mut summary: Vec<char> = Vec::new();
    let mut k: usize = start;
    while k < n
        invariant
            start <= k <= n == source@.len(),
            src == source@.map_values(|l: Vec<char>| l@),
            summary@ == join_with(src.subrange(start as int, k as int), seq![';', ' ']),
        decreases n - k,
    {
        let ghost before = summary@;
        if k > start {
            summary.push(';');
            summary.push(' ');
        }
        crate::text::extend_chars(&mut summary, source[k].as_slice());
        proof {
            let sub = src.subrange(start as int, k + 1);
            assert(sub.drop_last() =~= src.subrange(start as int, k as int));
            if k == start {
                assert(sub =~= seq![src[k as int]]);
            }
            assert(summary@ =~= join_with(sub, seq![';', ' ']));
        }
        k = k + 1;
    }
    proof {
        assert(src.subrange(start as int, n as int) =~= src.skip(start as int));
    }
    if summary.len() > 500 {
        let mut cut = crate::text::chars_range_string(summary.as_slice(), 0, 500);
        push_str_chars(&mut cut, "...");
        proof {
            assert(summary@.subrange(0, 500) =~= summary@.take(500));
        }
        cut
    } else {
        crate::text::chars_string(summary.as_slice())
    }
}

/// `2^n`.
pub open spec fn two_pow(n: nat) -> nat
    decreases n,
{
    if n == 0 {
        1
    } else {
        2 * two_pow((n - 1) as nat)
    }
}

proof fn lemma_two_pow_bound(n: nat)
    requires
        n <= 30,
    ensures
        1 <= two_pow(n) <= 1_073_741_824,
    decreases 30 - n,
{
    if n < 30 {
        lemma_two_pow_bound(n + 1);
    } else {
        reveal_with_fuel(two_pow, 31);
    }
}

/// Big-endian value of two bytes.
pub open spec fn be2(a: u8, b: u8) -> int {
    a * 256 + b
}

/// Big-endian value of four bytes.
pub open spec fn be4(a: u8, b: u8, c: u8, d: u8) -> int {
    ((a * 256 + b) * 256 + c) * 256 + d
}

/// The end of a new-format packet body whose length octets start at
/// `cursor`: partial-length chunks are followed until a final length.
pub open spec fn new_body_end(bytes: Seq<u8>, cursor: int) -> Option<int>
    decreases bytes.len() - cursor,
{
    if cursor < 0 || cursor >= bytes.len() {
        None
    } else {
        let lo = bytes[cursor];
        let c1 = cursor + 1;
        let (len, c2) = if lo < 192 {
            (lo as int, c1)
        } else if lo < 224 {
            if c1 >= bytes.len() {
                (-1, c1)
            } else {
                ((lo - 192) * 256 + bytes[c1] + 192, c1 + 1)
            }
        } else if lo < 255 {
            (two_pow((lo - 224) as nat) as int, c1)
        } else if c1 + 4 > bytes.len() {
            (-1, c1)
        } else {
            (be4(bytes[c1], bytes[c1 + 1], bytes[c1 + 2], bytes[c1 + 3]), c1 + 4)
        };
        if len < 0 || c2 + len > bytes.len() {
            None
        } else if 224 <= lo && lo < 255 {
            new_body_end(bytes, c2 + len)
        } else {
            Some(c2 + len)
        }
    }
}

/// The tag and end of the OpenPGP packet that starts at `offset`.
pub open spec fn packet_at(bytes: Seq<u8>, offset: int) -> Option<(int, int)> {
    if offset < 0 || offset >= bytes.len() || bytes[offset] < 128 {
        None
    } else {
        let ctb = bytes[offset];
        let c = offset + 1;
        if ctb % 128 >= 64 {
            match new_body_end(bytes, c) {
                Some(end) => Some(((ctb % 64) as int, end)),
                None => None,
            }
        } else {
            let lt = ctb % 4;
            let (len, hdr) = if lt == 0 {
                if c >= bytes.len() {
                    (-1, 0int)
                } else {
                    (bytes[c] as int, 1int)
                }
            } else if lt == 1 {
                if c + 2 > bytes.len() {
                    (-1, 0)
                } else {
                    (be2(bytes[c], bytes[c + 1]), 2)
                }
            } else if lt == 2 {
                if c + 4 > bytes.len() {
                    (-1, 0)
                } else {
                    (be4(bytes[c], bytes[c + 1], bytes[c + 2], bytes[c + 3]), 4)
                }
            } else {
                (bytes.len() - c, 0)
            };
            if len < 0 || c + hdr + len > bytes.len() {
                None
            } else {
                Some((((ctb / 4) % 16) as int, c + hdr + len))
            }
        }
    }
}

pub proof fn lemma_body_end(bytes: Seq<u8>, cursor: int)
    ensures
        new_body_end(bytes, cursor) matches Some(e) ==> cursor < e <= bytes.len(),
    decreases bytes.len() - cursor,
{
    if 0 <= cursor < bytes.len() {
        let lo = bytes[cursor];
        if 224 <= lo && lo < 255 {
            let nxt = cursor + 1 + two_pow((lo - 224) as nat) as int;
            if nxt <= bytes.len() {
                lemma_body_end(bytes, nxt);
            }
        }
    }
}

/// A packet ends after it starts and within the bytes.
pub proof fn lemma_packet_end(bytes: Seq<u8>, offset: int)
    ensures
        packet_at(bytes, offset) matches Some((t, e)) ==> offset < e <= bytes.len(),
{
    lemma_body_end(bytes, offset + 1);
}

/// The packets (offset, tag, end) from `offset` to the end of `bytes`, if
/// they all parse.
pub open spec fn packets_from(bytes: Seq<u8>, offset: int) -> Option<Seq<(int, int, int)>>
    decreases bytes.len() - offset,
{
    if offset < 0 || offset >= bytes.len() {
        Some(seq![])
    } else {
        match packet_at(bytes, offset) {
            None => None,
            Some((tag, end)) => {
                proof {
                    lemma_packet_end(bytes, offset);
                }
                match packets_from(bytes, end) {
                    None => None,
                    Some(rest) => Some(seq![(offset, tag, end)] + rest),
                }
            },
        }
    }
}

pub open spec fn session_key_tag(tag: int) -> bool {
    tag == 1 || tag == 3
}

pub open spec fn encrypted_data_tag(tag: int) -> bool {
    tag == 9 || tag == 18 || tag == 20
}

/// Offsets where a new message starts: a session-key packet right after an
/// encrypted-data packet (from the third packet on).
pub open spec fn message_cuts(ps: Seq<(int, int, int)>) -> Seq<int>
    decreases ps.len(),
{
    if ps.len() < 3 {
        seq![]
    } else {
        let c = message_cuts(ps.drop_last());
        let j = ps.len() - 1;
        if encrypted_data_tag(ps[j - 1].1) && session_key_tag(ps[j].1) {
            c.push(ps[j].0)
        } else {
            c
        }
    }
}

/// The messages of a concatenation of OpenPGP messages, when there are at
/// least two.
pub open spec fn split_messages(bytes: Seq<u8>) -> Option<Seq<Seq<u8>>> {
    match packets_from(bytes, 0) {
        None => None,
        Some(ps) => {
            let starts = seq![0int] + message_cuts(ps);
            if starts.len() < 2 {
                None
            } else {
                Some(
                    Seq::new(
                        starts.len(),
                        |k: int|
                            bytes.subrange(
                                starts[k],
                                if k + 1 < starts.len() {
                                    starts[k + 1]
                                } else {
                                    bytes.len() as int
                                },
                            ),
                    ),
                )
            }
        },
    }
}

/// Packet offsets rise strictly, start at `offset`, and lie within the bytes.
proof fn lemma_packets_sorted(bytes: Seq<u8>, offset: int)
    requires
        0 <= offset,
        packets_from(bytes, offset) is Some,
    ensures
        ({
            let ps = packets_from(bytes, offset)->0;
            &&& forall|k: int| 0 <= k < ps.len() ==> offset <= (#[trigger] ps[k]).0 < bytes.len()
            &&& forall|a: int, b: int| 0 <= a < b < ps.len() ==> (#[trigger] ps[a]).0 < (#[trigger] ps[b]).0
            &&& (ps.len() > 0 ==> ps[0].0 == offset)
        }),
    decreases bytes.len() - offset,
{
    if offset < bytes.len() {
        lemma_packet_end(bytes, offset);
        let (tag, end) = packet_at(bytes, offset)->0;
        lemma_packets_sorted(bytes, end);
        let rest = packets_from(bytes, end)->0;
        let ps = seq![(offset, tag, end)] + rest;
        assert forall|k: int| 0 <= k < ps.len() implies offset <= (#[trigger] ps[k]).0 < bytes.len() by {
            if k > 0 {
                assert(ps[k] == rest[k - 1]);
            }
        }
        assert forall|a: int, b: int| 0 <= a < b < ps.len() implies (#[trigger] ps[a]).0 < (#[trigger] ps[b]).0 by {
            assert(ps[b] == rest[b - 1]);
            if a > 0 {
                assert(ps[a] == rest[a - 1]);
            }
        }
    }
}

/// The cut offsets rise strictly and lie after the second packet's offset
/// and no later than the last one's.
proof fn lemma_cuts_sorted(ps: Seq<(int, int, int)>)
    requires
        forall|a: int, b: int| 0 <= a < b < ps.len() ==> (#[trigger] ps[a]).0 < (#[trigger] ps[b]).0,
    ensures
        forall|a: int, b: int|
            0 <= a < b < message_cuts(ps).len() ==> (#[trigger] message_cuts(ps)[a]) < (#[trigger] message_cuts(ps)[b]),
        forall|i: int|
            0 <= i < message_cuts(ps).len() ==> ps[1].0 < #[trigger] message_cuts(ps)[i] && message_cuts(ps)[i]
                <= ps.last().0,
    decreases ps.len(),
{
    if ps.len() >= 3 {
        let p = ps.drop_last();
        assert forall|a: int, b: int| 0 <= a < b < p.len() implies (#[trigger] p[a]).0 < (#[trigger] p[b]).0 by {
            assert(p[a] == ps[a] && p[b] == ps[b]);
        }
        lemma_cuts_sorted(p);
        let c = message_cuts(p);
        assert(p[1] == ps[1]);
        assert(p.last() == ps[ps.len() - 2]);
        assert(ps[ps.len() - 2].0 < ps.last().0);
    }
}

/// The pieces of `bytes` between consecutive starts, the last to the end.
pub open spec fn pieces_between(bytes: Seq<u8>, starts: Seq<int>) -> Seq<Seq<u8>> {
    Seq::new(
        starts.len(),
        |k: int| bytes.subrange(starts[k], if k + 1 < starts.len() { starts[k + 1] } else { bytes.len() as int }),
    )
}

proof fn lemma_pieces_flatten(bytes: Seq<u8>, starts: Seq<int>)
    requires
        starts.len() > 0,
        0 <= starts[0],
        forall|a: int, b: int| 0 <= a < b < starts.len() ==> (#[trigger] starts[a]) < (#[trigger] starts[b]),
        forall|i: int| 0 <= i < starts.len() ==> #[trigger] starts[i] <= bytes.len(),
    ensures
        pieces_between(bytes, starts).flatten() == bytes.subrange(starts[0], bytes.len() as int),
    decreases starts.len(),
{
    let ps = pieces_between(bytes, starts);
    if starts.len() == 1 {
        assert(ps.drop_first() =~= Seq::<Seq<u8>>::empty());
        assert(ps.drop_first().flatten() =~= Seq::<u8>::empty());
        assert(ps.flatten() =~= ps[0]);
    } else {
        let rest = starts.drop_first();
        lemma_pieces_flatten(bytes, rest);
        assert(ps.drop_first() =~= pieces_between(bytes, rest));
        assert(ps[0] + bytes.subrange(rest[0], bytes.len() as int) =~= bytes.subrange(starts[0], bytes.len() as int));
    }
}

/// Splitting a concatenation of OpenPGP messages loses and adds nothing:
/// the messages, at least two, put back together are the input.
pub proof fn split_messages_concatenate_to_input(bytes: Seq<u8>)
    requires
        split_messages(bytes) is Some,
    ensures
        split_messages(bytes)->0.len() >= 2,
        split_messages(bytes)->0.flatten() == bytes,
{
    let ps = packets_from(bytes, 0)->0;
    lemma_packets_sorted(bytes, 0);
    lemma_cuts_sorted(ps);
    let cuts = message_cuts(ps);
    let starts = seq![0int] + cuts;
    assert(cuts.len() >= 1);
    assert(ps.len() >= 3) by {
        if ps.len() < 3 {
            assert(message_cuts(ps).len() == 0);
        }
    }
    assert forall|a: int, b: int| 0 <= a < b < starts.len() implies (#[trigger] starts[a]) < (#[trigger] starts[b]) by {
        if a == 0 {
            assert(starts[b] == cuts[b - 1]);
            assert(ps[0].0 < ps[1].0);
        } else {
            assert(starts[a] == cuts[a - 1] && starts[b] == cuts[b - 1]);
        }
    }
    assert forall|i: int| 0 <= i < starts.len() implies #[trigger] starts[i] <= bytes.len() by {
        if i > 0 {
            assert(starts[i] == cuts[i - 1]);
            assert(ps.last() == ps[ps.len() - 1]);
        }
    }
    lemma_pieces_flatten(bytes, starts);
    assert(split_messages(bytes)->0 =~= pieces_between(bytes, starts));
    assert(bytes.subrange(0, bytes.len() as int) =~= bytes);
}

fn two_pow_exec(n: u8) -> (r: usize)
    requires
        n <= 30,
    ensures
        r == two_pow(n as nat),
{
    let mut p: usize = 1;
    let mut i: u8 = 0;
    while i < n
        invariant
            i <= n <= 30,
            p == two_pow(i as nat),
        decreases n - i,
    {
        proof {
            lemma_two_pow_bound(i as nat + 1);
        }
        p = p * 2;
        i = i + 1;
    }
    p
}

fn new_packet_end(bytes: &[u8], cursor: usize) -> (r: Option<usize>)
    ensures
        match r {
            Some(e) => new_body_end(bytes@, cursor as int) == Some(e as int),
            None => new_body_end(bytes@, cursor as int) is None,
        },
    decreases bytes.len() - cursor,
{
    if cursor >= bytes.len() {
        return None;
    }
    let lo = bytes[cursor];
    let c1 = cursor + 1;
    let mut c2 = c1;
    let len: usize;
    if lo < 192 {
        len = lo as usize;
    } else if lo < 224 {
        if c1 >= bytes.len() {
            return None;
        }
        len = (lo as usize - 192) * 256 + bytes[c1] as usize + 192;
        c2 = c1 + 1;
    } else if lo < 255 {
        len = two_pow_exec(lo - 224);
    } else {
        if bytes.len() - c1 < 4 {
            return None;
        }
        let v: u64 = ((bytes[c1] as u64 * 256 + bytes[c1 + 1] as u64) * 256 + bytes[c1 + 2] as u64) * 256
            + bytes[c1 + 3] as u64;
        if v > (bytes.len() - c1 - 4) as u64 {
            return None;
        }
        len = v as usize;
        c2 = c1 + 4;
    }
    if len > bytes.len() - c2 {
        return None;
    }
    let end = c2 + len;
    if 224 <= lo && lo < 255 {
        new_packet_end(bytes, end)
    } else {
        Some(end)
    }
}

/// The tag and end of the packet at `offset`; see `packet_at`.
fn parse_openpgp_packet(bytes: &[u8], offset: usize) -> (r: Option<(u8, usize)>)
    ensures
        match r {
            Some((tag, end)) => packet_at(bytes@, offset as int) == Some((tag as int, end as int)),
            None => packet_at(bytes@, offset as int) is None,
        },
{
    if offset >= bytes.len() || bytes[offset] < 128 {
        return None;
    }
    let ctb = bytes[offset];
    let c = offset + 1;
    if ctb % 128 >= 64 {
        return match new_packet_end(bytes, c) {
            Some(end) => Some((ctb % 64, end)),
            None => None,
        };
    }
    let lt = ctb % 4;
    let len: usize;
    let hdr: usize;
    if lt == 0 {
        if c >= bytes.len() {
            return None;
        }
        len = bytes[c] as usize;
        hdr = 1;
    } else if lt == 1 {
        if bytes.len() - c < 2 {
            return None;
        }
        len = bytes[c] as usize * 256 + bytes[c + 1] as usize;
        hdr = 2;
    } else if lt == 2 {
        if bytes.len() - c < 4 {
            return None;
        }
        let v: u64 = ((bytes[c] as u64 * 256 + bytes[c + 1] as u64) * 256 + bytes[c + 2] as u64) * 256
            + bytes[c + 3] as u64;
        if v > (bytes.len() - c - 4) as u64 {
            return None;
        }
        len = v as usize;
        hdr = 4;
    } else {
        len = bytes.len() - c;
        hdr = 0;
    }
    if len > bytes.len() - c - hdr {
        return None;
    }
    Some(((ctb / 4) % 16, c + hdr + len))
}

/// Splits bytes that hold several OpenPGP messages one after another;
/// `None` when they do not parse as packets or hold one message.
pub fn split_concatenated_openpgp_messages(bytes: &[u8]) -> (r: Option<Vec<Vec<u8>>>)
    ensures
        match r {
            Some(v) => split_messages(bytes@) == Some(v@.map_values(|m: Vec<u8>| m@)),
            None => split_messages(bytes@) is None,
        },
{
    let mut packets: Vec<(usize, u8, usize)> = Vec::new();
    let mut offset: usize = 0;
    while offset < bytes.len()
        invariant
            offset <= bytes@.len(),
            forall|k: int| 0 <= k < packets@.len() ==> #[trigger] packets@[k].0 < offset,
            forall|a: int, b: int| 0 <= a < b < packets@.len() ==> packets@[a].0 < packets@[b].0,
            packets_from(bytes@, 0) == match packets_from(bytes@, offset as int) {
                Some(rest) => Some(packets@.map_values(|p: (usize, u8, usize)| (p.0 as int, p.1 as int, p.2 as int)) + rest),
                None => None,
            },
        decreases bytes.len() - offset,
    {
        let ghost ps = packets@.map_values(|p: (usize, u8, usize)| (p.0 as int, p.1 as int, p.2 as int));
        match parse_openpgp_packet(bytes, offset) {
            None => {
                return None;
            },
            Some((tag, end)) => {
                proof {
                    lemma_packet_end(bytes@, offset as int);
                }
                packets.push((offset, tag, end));
                proof {
                    let ps2 = packets@.map_values(|p: (usize, u8, usize)| (p.0 as int, p.1 as int, p.2 as int));
                    assert(ps2 =~= ps.push((offset as int, tag as int, end as int)));
                    match packets_from(bytes@, end as int) {
                        Some(rest) => {
                            assert(ps.push((offset as int, tag as int, end as int)) + rest =~= ps + (seq![
                                (offset as int, tag as int, end as int),
                            ] + rest));
                        },
                        None => {},
                    }
                }
                offset = end;
            },
        }
    }
    let ghost ps = packets@.map_values(|p: (usize, u8, usize)| (p.0 as int, p.1 as int, p.2 as int));
    proof {
        assert(ps + seq![] =~= ps);
    }
    let mut starts: Vec<usize> = Vec::new();
    starts.push(0);
    let np = packets.len();
    proof {
        if np >= 2 {
            assert(message_cuts(ps.take(2)) =~= Seq::<int>::empty());
        }
        assert(starts@.map_values(|x: usize| x as int) =~= seq![0int]);
    }
    if np < 3 {
        proof {
            assert(message_cuts(ps) =~= Seq::<int>::empty());
        }
        return None;
    }
    let mut j: usize = 2;
    while j < np
        invariant
            2 <= j <= np == ps.len(),
            ps == packets@.map_values(|p: (usize, u8, usize)| (p.0 as int, p.1 as int, p.2 as int)),
            starts@.map_values(|x: usize| x as int) == seq![0int] + message_cuts(ps.take(j as int)),
            starts@.len() >= 1,
            starts@[0] == 0,
            starts@.last() <= packets@[j - 1].0,
            forall|a: int, b: int| 0 <= a < b < starts@.len() ==> starts@[a] < starts@[b],
            forall|k: int| 0 <= k < np ==> #[trigger] packets@[k].0 < bytes@.len(),
            forall|a: int, b: int| 0 <= a < b < np ==> packets@[a].0 < packets@[b].0,
        decreases np - j,
    {
        proof {
            assert(ps.take(j + 1).drop_last() =~= ps.take(j as int));
            assert(ps.take(j + 1)[j - 1] == ps[j - 1]);
            assert(ps.take(j + 1)[j as int] == ps[j as int]);
        }
        let prev_tag = packets[j - 1].1;
        let tag = packets[j].1;
        let ghost old_starts = starts@;
        if (prev_tag == 9 || prev_tag == 18 || prev_tag == 20) && (tag == 1 || tag == 3) {
            starts.push(packets[j].0);
            proof {
                assert(starts@.map_values(|x: usize| x as int) =~= old_starts.map_values(|x: usize| x as int).push(
                    packets@[j as int].0 as int,
                ));
            }
        }
        proof {
            let t = ps.take(j + 1);
            assert(t[j - 1].1 == prev_tag as int);
            assert(t[j as int].1 == tag as int);
            assert(t[j as int].0 == packets@[j as int].0 as int);
            assert(message_cuts(t) == if encrypted_data_tag(t[j - 1].1) && session_key_tag(t[j as int].1) {
                message_cuts(ps.take(j as int)).push(t[j as int].0)
            } else {
                message_cuts(ps.take(j as int))
            });
            assert(starts@.map_values(|x: usize| x as int) =~= seq![0int] + message_cuts(ps.take(j + 1)));
        }
        j = j + 1;
    }
    proof {
        assert(ps.take(np as int) =~= ps);
    }
    let ghost st = seq![0int] + message_cuts(ps);
    if starts.len() < 2 {
        return None;
    }
    let mut out: Vec<Vec<u8>> = Vec::new();
    let mut k: usize = 0;
    let ns = starts.len();
    while k < ns
        invariant
            k <= ns == starts@.len(),
            st == starts@.map_values(|x: usize| x as int),
            forall|a: int, b: int| 0 <= a < b < starts@.len() ==> starts@[a] < starts@[b],
            forall|a: int| 0 <= a < starts@.len() ==> #[trigger] starts@[a] <= bytes@.len(),
            out@.len() == k,
            forall|i: int|
                0 <= i < k ==> (#[trigger] out@[i])@ == bytes@.subrange(
                    st[i],
                    if i + 1 < st.len() {
                        st[i + 1]
                    } else {
                        bytes@.len() as int
                    },
                ),
        decreases ns - k,
    {
        let from = starts[k];
        let to = if k + 1 < ns {
            starts[k + 1]
        } else {
            bytes.len()
        };
        out.push(sub_bytes(bytes, from, to));
        k = k + 1;
    }
    proof {
        let want = Seq::new(
            st.len(),
            |i: int|
                bytes@.subrange(
                    st[i],
                    if i + 1 < st.len() {
                        st[i + 1]
                    } else {
                        bytes@.len() as int
                    },
                ),
        );
        assert(out@.map_values(|m: Vec<u8>| m@) =~= want);
    }
    Some(out)
}

fn sub_bytes(v: &[u8], from: usize, to: usize) -> (r: Vec<u8>)
    requires
        from <= to <= v.len(),
    ensures
        r@ == v@.subrange(from as int, to as int),
{
    let mut r: Vec<u8> = Vec::new();
    let mut i: usize = from;
    while i < to
        invariant
            from <= i <= to <= v.len(),
            r@ == v@.subrange(from as int, i as int),
        decreases to - i,
    {
        r.push(v[i]);
        i = i + 1;
        assert(r@ =~= v@.subrange(from as int, i as int));
    }
    r
}

/// A public key from GPG's key listing: its primary fingerprint and user
/// IDs.
#[derive(Debug, Clone, PartialEq, Eq)]
pub struct GpgPublicKey {
    pub fingerprint: String,
    pub user_ids: Vec<String>,
}

pub type KeyView = (Seq<char>, Seq<Seq<char>>);

pub open spec fn key_view(k: GpgPublicKey) -> KeyView {
    (k.fingerprint@, k.user_ids@.map_values(|u: String| u@))
}

/// Field `i` of a colon-separated record, empty when missing.
pub open spec fn colon_field(line: Seq<char>, i: int) -> Seq<char> {
    let f = crate::text::split_on(line, ':');
    if 0 <= i < f.len() {
        f[i]
    } else {
        seq![]
    }
}

pub open spec fn push_complete(keys: Seq<KeyView>, key: Option<KeyView>) -> Seq<KeyView> {
    match key {
        Some(k) => if k.0.len() > 0 {
            keys.push(k)
        } else {
            keys
        },
        None => keys,
    }
}

/// One record of the listing: `pub` starts a key, the first `fpr` after
/// it gives its fingerprint, each non-empty `uid` adds a user ID.
pub open spec fn key_step(st: (Seq<KeyView>, Option<KeyView>), line: Seq<char>) -> (Seq<KeyView>, Option<KeyView>) {
    let (keys, current) = st;
    let kind = colon_field(line, 0);
    if kind == "pub"@ {
        (push_complete(keys, current), Some((seq![], seq![])))
    } else if kind == "fpr"@ {
        match current {
            Some(k) => if k.0.len() == 0 {
                (keys, Some((colon_field(line, 9), k.1)))
            } else {
                st
            },
            None => st,
        }
    } else if kind == "uid"@ {
        match current {
            Some(k) => if colon_field(line, 9).len() > 0 {
                (keys, Some((k.0, k.1.push(colon_field(line, 9)))))
            } else {
                st
            },
            None => st,
        }
    } else {
        st
    }
}

pub open spec fn key_fold(lines: Seq<Seq<char>>) -> (Seq<KeyView>, Option<KeyView>)
    decreases lines.len(),
{
    if lines.len() == 0 {
        (seq![], None)
    } else {
        key_step(key_fold(lines.drop_last()), lines.last())
    }
}

/// The keys of `gpg --with-colons --fingerprint --list-keys` output that
/// have a fingerprint.
pub open spec fn listed_keys(output: Seq<char>) -> Seq<KeyView> {
    let st = key_fold(text_lines(output));
    push_complete(st.0, st.1)
}

fn field(fields: &Vec<Vec<char>>, i: usize) -> (r: Vec<char>)
    ensures
        r@ == if i < fields@.len() { fields@[i as int]@ } else { seq![] },
{
    if i < fields.len() {
        sub_chars(fields[i].as_slice(), 0, fields[i].len())
    } else {
        Vec::new()
    }
}

fn is_word(v: &[char], w: &str) -> (r: bool)
    ensures
        r == (v@ == w@),
{
    let wv = str_chars(w);
    crate::text::chars_eq(v, wv.as_slice())
}

fn key_of(fp: &Vec<char>, uids: &Vec<String>) -> (r: GpgPublicKey)
    ensures
        key_view(r) == (fp@, uids@.map_values(|u: String| u@)),
{
    let mut copy: Vec<String> = Vec::new();
    let mut i: usize = 0;
    while i < uids.len()
        invariant
            i <= uids@.len(),
            copy@.map_values(|u: String| u@) == uids@.take(i as int).map_values(|u: String| u@),
        decreases uids.len() - i,
    {
        let ghost before = copy@;
        let c = uids[i].clone();
        copy.push(c);
        proof {
            assert(c@ == uids@[i as int]@);
            assert(copy@ =~= before.push(c));
            assert(uids@.take(i + 1) =~= uids@.take(i as int).push(uids@[i as int]));
            assert(copy@.map_values(|u: String| u@) =~= before.map_values(|u: String| u@).push(c@));
        }
        i = i + 1;
        assert(copy@.map_values(|u: String| u@) =~= uids@.take(i as int).map_values(|u: String| u@));
    }
    assert(uids@.take(uids@.len() as int) =~= uids@);
    GpgPublicKey { fingerprint: crate::text::chars_string(fp.as_slice()), user_ids: copy }
}

pub fn parse_gpg_public_keys(output: &str) -> (r: Vec<GpgPublicKey>)
    ensures
        r@.map_values(|k: GpgPublicKey| key_view(k)) == listed_keys(output@),
{
    let v = str_chars(output);
    let lines = lines_of(v.as_slice());
    let ghost ls = text_lines(output@);
    let mut keys: Vec<GpgPublicKey> = Vec::new();
    let mut has_current = false;
    let mut fp: Vec<char> = Vec::new();
    let mut uids: Vec<String> = Vec::new();
    let mut i: usize = 0;
    proof {
        assert(ls.take(0) =~= Seq::<Seq<char>>::empty());
        assert(keys@.map_values(|k: GpgPublicKey| key_view(k)) =~= Seq::<KeyView>::empty());
    }
    while i < lines.len()
        invariant
            i <= lines@.len(),
            lines@.map_values(|l: Vec<char>| l@) == ls,
            key_fold(ls.take(i as int)) == (
                keys@.map_values(|k: GpgPublicKey| key_view(k)),
                if has_current {
                    Some((fp@, uids@.map_values(|u: String| u@)))
                } else {
                    None
                },
            ),
        decreases lines.len() - i,
    {
        proof {
            assert(ls.take(i + 1).drop_last() =~= ls.take(i as int));
            assert(ls.take(i + 1).last() == lines@[i as int]@);
        }
        let fields = crate::text::split_chars_on(lines[i].as_slice(), ':');
        let kind = field(&fields, 0);
        let ghost line = lines@[i as int]@;
        proof {
            crate::text::lemma_split_on_len(line, ':');
            assert(kind@ == colon_field(line, 0));
        }
        if is_word(kind.as_slice(), "pub") {
            if has_current && fp.len() > 0 {
                let ghost before = keys@.map_values(|k: GpgPublicKey| key_view(k));
                let k = key_of(&fp, &uids);
                keys.push(k);
                proof {
                    assert(keys@.map_values(|k: GpgPublicKey| key_view(k)) =~= before.push(key_view(k)));
                }
            }
            has_current = true;
            fp = Vec::new();
            uids = Vec::new();
            proof {
                assert(uids@.map_values(|u: String| u@) =~= Seq::<Seq<char>>::empty());
                assert(fp@ =~= Seq::<char>::empty());
            }
        } else if is_word(kind.as_slice(), "fpr") {
            if has_current && fp.len() == 0 {
                fp = field(&fields, 9);
                proof {
                    assert(fp@ == colon_field(line, 9));
                }
            }
        } else if is_word(kind.as_slice(), "uid") {
            if has_current {
                let u = field(&fields, 9);
                if u.len() > 0 {
                    let ghost before = uids@.map_values(|u: String| u@);
                    uids.push(crate::text::chars_string(u.as_slice()));
                    proof {
                        assert(uids@.map_values(|u: String| u@) =~= before.push(colon_field(line, 9)));
                    }
                }
            }
        }
        i = i + 1;
    }
    proof {
        assert(ls.take(ls.len() as int) =~= ls);
    }
    if has_current && fp.len() > 0 {
        let ghost before = keys@.map_values(|k: GpgPublicKey| key_view(k));
        let k = key_of(&fp, &uids);
        keys.push(k);
        proof {
            assert(keys@.map_values(|k: GpgPublicKey| key_view(k)) =~= before.push(key_view(k)));
        }
    }
    keys
}

/// The GPG program: `$AISH_GPG` trimmed when it is not blank, else `gpg`.
pub open spec fn gpg_program_of(aish_gpg: Option<Seq<char>>) -> Seq<char> {
    match aish_gpg {
        Some(v) => if crate::text::trim(v).len() > 0 {
            crate::text::trim(v)
        } else {
            "gpg"@
        },
        None => "gpg"@,
    }
}

/// The GPG program to run; `aish_gpg` is the value of `$AISH_GPG`.
pub fn gpg_program(aish_gpg: Option<&str>) -> (r: String)
    ensures
        r@ == gpg_program_of(
            match aish_gpg {
                Some(v) => Some(v@),
                None => None,
            },
        ),
{
    match aish_gpg {
        Some(v) => {
            let t = crate::text::trim_chars(crate::text::str_chars(v).as_slice());
            if t.len() > 0 {
                crate::text::chars_string(t.as_slice())
            } else {
                "gpg".to_owned()
            }
        },
        None => "gpg".to_owned(),
    }
}

/// Whether GPG's error output says that it saw several messages in one file.
pub fn gpg_stderr_mentions_multiple_plaintexts(stderr: &[u8]) -> (r: bool)
    ensures
        r == crate::text::has_infix(utf8_lossy(stderr@), "multiple plaintexts seen"@),
{
    let text = lossy_text(stderr);
    crate::text::contains(
        crate::text::str_chars(text.as_str()).as_slice(),
        crate::text::str_chars("multiple plaintexts seen").as_slice(),
    )
}


// ---------------------------------------------------------------------
// Choosing a key by selector
// ---------------------------------------------------------------------

/// What `char::to_uppercase` yields for `c`: its full Unicode uppercase
/// mapping, one character or more.
pub uninterp spec fn uppercase_mapping(c: char) -> Seq<char>;

/// `char::to_uppercase`, collected into a string. Its documentation
/// gives the ASCII case: a lowercase ASCII letter becomes its capital, any
/// other ASCII character stays as it is; beyond ASCII the mapping is only
/// named here.
#[verifier::external_body]
fn char_to_uppercase(c: char) -> (r: String)
    ensures
        r@ == uppercase_mapping(c),
        97 <= (c as u32) <= 122 ==> r@ == seq![((c as u32) - 32) as char],
        (c as u32) < 128 && !(97 <= (c as u32) <= 122) ==> r@ == seq![c],
{
    c.to_uppercase().collect()
}

/// ASCII whitespace, as `char::is_ascii_whitespace` documents it.
pub open spec fn is_ascii_ws(c: char) -> bool {
    c == ' ' || c == '\t' || c == '\n' || c == '\x0C' || c == '\r'
}

/// A fingerprint as compared with a selector: ASCII whitespace dropped,
/// every other character in uppercase.
pub open spec fn normalized_fingerprint(s: Seq<char>) -> Seq<char>
    decreases s.len(),
{
    if s.len() == 0 {
        seq![]
    } else if is_ascii_ws(s.last()) {
        normalized_fingerprint(s.drop_last())
    } else {
        normalized_fingerprint(s.drop_last()) + uppercase_mapping(s.last())
    }
}

pub fn normalize_fingerprint(value: &str) -> (r: String)
    ensures
        r@ == normalized_fingerprint(value@),
{
    let v = str_chars(value);
    let mut out = String::new();
    let mut i: usize = 0;
    assert(v@.take(0) =~= Seq::<char>::empty());
    while i < v.len()
        invariant
            i <= v@.len(),
            v@ == value@,
            out@ == normalized_fingerprint(v@.take(i as int)),
        decreases v.len() - i,
    {
        let c = v[i];
        assert(v@.take(i + 1).drop_last() =~= v@.take(i as int));
        if !(c == ' ' || c == '\t' || c == '\n' || c == '\x0C' || c == '\r') {
            let up = char_to_uppercase(c);
            push_str_chars(&mut out, up.as_str());
        }
        i = i + 1;
    }
    assert(v@.take(v@.len() as int) =~= v@);
    out
}

/// Why a key selector does not name one key.
#[derive(Debug, Clone, PartialEq, Eq)]
pub enum GpgKeySelectError {
    /// The selector is blank.
    EmptySelector,
    /// No key matched the selector.
    NotFound(String),
    /// Several keys matched and none by its full fingerprint; their
    /// fingerprints.
    Ambiguous(Vec<String>),
}

/// Texts joined with `, ` between them.
pub open spec fn comma_joined(fs: Seq<Seq<char>>) -> Seq<char>
    decreases fs.len(),
{
    if fs.len() == 0 {
        seq![]
    } else if fs.len() == 1 {
        fs[0]
    } else {
        comma_joined(fs.drop_last()) + ", "@ + fs.last()
    }
}

impl GpgKeySelectError {
    pub fn message(&self) -> (r: String)
        ensures
            r@ == match self {
                GpgKeySelectError::EmptySelector =>
                    "GPG key selector is empty; use a key fingerprint or a unique email/user ID"@,
                GpgKeySelectError::NotFound(selector) => "GPG key not found for selector: "@ + selector@,
                GpgKeySelectError::Ambiguous(fingerprints) =>
                    "GPG key selector is ambiguous; use a full fingerprint. Matching fingerprints: "@ + comma_joined(
                        fingerprints@.map_values(|f: String| f@),
                    ),
            },
    {
        match self {
            GpgKeySelectError::EmptySelector => {
                "GPG key selector is empty; use a key fingerprint or a unique email/user ID".to_string()
            },
            GpgKeySelectError::NotFound(selector) => {
                let mut m = "GPG key not found for selector: ".to_string();
                push_str_chars(&mut m, selector.as_str());
                m
            },
            GpgKeySelectError::Ambiguous(fingerprints) => {
                let mut m = "GPG key selector is ambiguous; use a full fingerprint. Matching fingerprints: ".to_string();
                let ghost head = m@;
                let ghost fv = fingerprints@.map_values(|f: String| f@);
                let mut i: usize = 0;
                assert(fv.take(0) =~= Seq::<Seq<char>>::empty());
                while i < fingerprints.len()
                    invariant
                        i <= fingerprints@.len(),
                        fv == fingerprints@.map_values(|f: String| f@),
                        m@ == head + comma_joined(fv.take(i as int)),
                    decreases fingerprints.len() - i,
                {
                    assert(fv.take(i + 1).drop_last() =~= fv.take(i as int));
                    assert(fv.take(i + 1).last() == fingerprints@[i as int]@);
                    assert(i == 0 ==> fv.take(i + 1) =~= seq![fingerprints@[i as int]@]);
                    if i > 0 {
                        push_str_chars(&mut m, ", ");
                    }
                    push_str_chars(&mut m, fingerprints[i].as_str());
                    i = i + 1;
                }
                assert(fv.take(fingerprints@.len() as int) =~= fv);
                m
            },
        }
    }
}

/// The selector as it is looked up: trimmed, and refused when blank.
pub fn gpg_key_selector(selector: &str) -> (r: Result<String, GpgKeySelectError>)
    ensures
        trim(selector@).len() == 0 ==> r == Err::<String, GpgKeySelectError>(GpgKeySelectError::EmptySelector),
        trim(selector@).len() > 0 ==> (r matches Ok(s) && s@ == trim(selector@)),
{
    let t = trim_chars(str_chars(selector).as_slice());
    if t.len() == 0 {
        Err(GpgKeySelectError::EmptySelector)
    } else {
        let mut s = String::new();
        push_chars(&mut s, t.as_slice());
        Ok(s)
    }
}

/// The fingerprints of `keys` that equal the normalized selector once
/// normalized themselves.
pub open spec fn exact_fingerprints(keys: Seq<GpgPublicKey>, wanted: Seq<char>) -> Seq<Seq<char>>
    decreases keys.len(),
{
    if keys.len() == 0 {
        seq![]
    } else if normalized_fingerprint(keys.last().fingerprint@) == wanted {
        exact_fingerprints(keys.drop_last(), wanted).push(keys.last().fingerprint@)
    } else {
        exact_fingerprints(keys.drop_last(), wanted)
    }
}

pub open spec fn key_fingerprints(keys: Seq<GpgPublicKey>) -> Seq<Seq<char>> {
    keys.map_values(|k: GpgPublicKey| k.fingerprint@)
}

/// The key a selector names among the keys GPG listed for it: none is an
/// error; one whose fingerprint is the selector's wins; else a single
/// listed key; else the selector is ambiguous.
pub fn choose_gpg_key_fingerprint(selector: &str, keys: &Vec<GpgPublicKey>) -> (r: Result<String, GpgKeySelectError>)
    ensures
        keys@.len() == 0 ==> (r matches Err(GpgKeySelectError::NotFound(s)) && s@ == selector@),
        ({
            let exact = exact_fingerprints(keys@, normalized_fingerprint(selector@));
            &&& keys@.len() > 0 && exact.len() == 1 ==> (r matches Ok(f) && f@ == exact[0])
            &&& keys@.len() == 1 && exact.len() != 1 ==> (r matches Ok(f) && f@ == keys@[0].fingerprint@)
            &&& keys@.len() > 1 && exact.len() != 1 ==> (r matches Err(GpgKeySelectError::Ambiguous(fs))
                && fs@.map_values(|f: String| f@) == key_fingerprints(keys@))
        }),
{
    if keys.len() == 0 {
        return Err(GpgKeySelectError::NotFound(selector.to_string()));
    }
    let wanted = normalize_fingerprint(selector);
    let ghost w = wanted@;
    let mut exact: Vec<String> = Vec::new();
    let mut i: usize = 0;
    assert(keys@.take(0) =~= Seq::<GpgPublicKey>::empty());
    while i < keys.len()
        invariant
            i <= keys@.len(),
            w == wanted@,
            w == normalized_fingerprint(selector@),
            exact@.map_values(|f: String| f@) == exact_fingerprints(keys@.take(i as int), w),
        decreases keys.len() - i,
    {
        let fp = normalize_fingerprint(keys[i].fingerprint.as_str());
        assert(keys@.take(i + 1).drop_last() =~= keys@.take(i as int));
        let ghost before = exact@.map_values(|f: String| f@);
        if crate::text::chars_eq(str_chars(fp.as_str()).as_slice(), str_chars(wanted.as_str()).as_slice()) {
            exact.push(keys[i].fingerprint.clone());
            assert(exact@.map_values(|f: String| f@) =~= before.push(keys@[i as int].fingerprint@));
        }
        i = i + 1;
    }
    assert(keys@.take(keys@.len() as int) =~= keys@);
    if exact.len() == 1 {
        assert(exact@.map_values(|f: String| f@)[0] == exact@[0]@);
        return Ok(exact[0].clone());
    }
    if keys.len() == 1 {
        return Ok(keys[0].fingerprint.clone());
    }
    let mut all: Vec<String> = Vec::new();
    let mut k: usize = 0;
    while k < keys.len()
        invariant
            k <= keys@.len(),
            all@.map_values(|f: String| f@) == key_fingerprints(keys@.take(k as int)),
        decreases keys.len() - k,
    {
        let ghost before = all@.map_values(|f: String| f@);
        let c = keys[k].fingerprint.clone();
        all.push(c);
        assert(all@.map_values(|f: String| f@) =~= before.push(keys@[k as int].fingerprint@));
        assert(key_fingerprints(keys@.take(k + 1)) =~= key_fingerprints(keys@.take(k as int)).push(
            keys@[k as int].fingerprint@,
        ));
        k = k + 1;
    }
    assert(keys@.take(keys@.len() as int) =~= keys@);
    Err(GpgKeySelectError::Ambiguous(all))
}


/// The arguments that list, with fingerprints and in colon format, the
/// public keys a selector matches; the selector comes after `--`, so that
/// it is never read as an option.
pub fn gpg_list_keys_args(selector: &str) -> (r: Vec<String>)
    ensures
        r@.map_values(|a: String| a@) == seq![
            "--batch"@,
            "--with-colons"@,
            "--fingerprint"@,
            "--list-keys"@,
            "--"@,
            selector@,
        ],
{
    let mut args: Vec<String> = Vec::new();
    args.push("--batch".to_string());
    args.push("--with-colons".to_string());
    args.push("--fingerprint".to_string());
    args.push("--list-keys".to_string());
    args.push("--".to_string());
    args.push(selector.to_string());
    assert(args@.map_values(|a: String| a@) =~= seq![
        "--batch"@,
        "--with-colons"@,
        "--fingerprint"@,
        "--list-keys"@,
        "--"@,
        selector@,
    ]);
    args
}

} // verus!
