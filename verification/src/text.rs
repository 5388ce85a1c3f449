//! Text primitives shared by the editor, the completion engine and the
//! output filters: UTF-8 byte accounting over `char` sequences, Unicode
//! whitespace and control classes, and conversions between `&str`,
//! `String` and `Vec<char>`.
use vstd::prelude::*;
use vstd::std_specs::iter::IteratorSpec;

verus! {

broadcast use vstd::string::group_string_axioms;

/// `String::push` appends one character to the end of the string.
pub assume_specification[ String::push ](s: &mut String, ch: char)
    ensures
        final(s)@ == old(s)@.push(ch),
;

/// Number of bytes of the UTF-8 encoding of `c`.
pub open spec fn char_width(c: char) -> nat {
    if (c as u32) < 0x80 {
        1
    } else if (c as u32) < 0x800 {
        2
    } else if (c as u32) < 0x10000 {
        3
    } else {
        4
    }
}

/// Number of bytes of the UTF-8 encoding of a character sequence.
pub open spec fn byte_len(s: Seq<char>) -> nat
    decreases s.len(),
{
    if s.len() == 0 {
        0
    } else {
        byte_len(s.drop_last()) + char_width(s.last())
    }
}

/// Byte offset at which the character with index `i` starts.
pub open spec fn byte_offset(s: Seq<char>, i: int) -> nat {
    byte_len(s.take(i))
}

/// `b` is the byte offset of some character boundary of `s`.
pub open spec fn is_boundary(s: Seq<char>, b: int) -> bool {
    exists|i: int| 0 <= i <= s.len() && byte_offset(s, i) == b
}

/// Unicode `White_Space` property, as `char::is_whitespace` documents it.
pub open spec fn is_ws(c: char) -> bool {
    ||| c == ' '
    ||| ('\t' <= c && c <= '\r')
    ||| c == '\u{85}'
    ||| c == '\u{a0}'
    ||| c == '\u{1680}'
    ||| ('\u{2000}' <= c && c <= '\u{200a}')
    ||| c == '\u{2028}'
    ||| c == '\u{2029}'
    ||| c == '\u{202f}'
    ||| c == '\u{205f}'
    ||| c == '\u{3000}'
}

/// General category `Cc`, as `char::is_control` documents it.
pub open spec fn is_ctrl(c: char) -> bool {
    (c as u32) < 0x20 || (0x7f <= (c as u32) && (c as u32) <= 0x9f)
}

pub open spec fn is_ascii_alnum(c: char) -> bool {
    ('0' <= c && c <= '9') || ('a' <= c && c <= 'z') || ('A' <= c && c <= 'Z')
}

pub open spec fn is_ascii_alpha(c: char) -> bool {
    ('a' <= c && c <= 'z') || ('A' <= c && c <= 'Z')
}

pub open spec fn is_ascii_digit(c: char) -> bool {
    '0' <= c && c <= '9'
}

/// `p` is a prefix of `s`.
pub open spec fn has_prefix(s: Seq<char>, p: Seq<char>) -> bool {
    p.len() <= s.len() && s.take(p.len() as int) == p
}

/// `p` is a suffix of `s`.
pub open spec fn has_suffix(s: Seq<char>, p: Seq<char>) -> bool {
    p.len() <= s.len() && s.skip(s.len() - p.len()) == p
}

/// `p` occurs in `s` at position `i`.
pub open spec fn occurs_at(s: Seq<char>, p: Seq<char>, i: int) -> bool {
    0 <= i && i + p.len() <= s.len() && s.subrange(i, i + p.len()) == p
}

/// `p` occurs somewhere in `s`.
pub open spec fn has_infix(s: Seq<char>, p: Seq<char>) -> bool {
    exists|i: int| occurs_at(s, p, i)
}

/// Every character of `s` is whitespace.
pub open spec fn all_ws(s: Seq<char>) -> bool {
    forall|i: int| 0 <= i < s.len() ==> is_ws(#[trigger] s[i])
}

/// Some character of `s` is whitespace.
pub open spec fn any_ws(s: Seq<char>) -> bool {
    exists|i: int| 0 <= i < s.len() && is_ws(#[trigger] s[i])
}

/// `s` with its whitespace characters removed.
pub open spec fn without_ws(s: Seq<char>) -> Seq<char> {
    s.filter(|c: char| !is_ws(c))
}

/// Length of the longest whitespace prefix of `s`.
pub open spec fn lead_ws(s: Seq<char>) -> nat
    decreases s.len(),
{
    if s.len() > 0 && is_ws(s[0]) {
        1 + lead_ws(s.drop_first())
    } else {
        0
    }
}

/// Length of the longest whitespace suffix of `s`.
pub open spec fn trail_ws(s: Seq<char>) -> nat
    decreases s.len(),
{
    if s.len() > 0 && is_ws(s.last()) {
        1 + trail_ws(s.drop_last())
    } else {
        0
    }
}

/// `s` without leading whitespace.
pub open spec fn trim_start(s: Seq<char>) -> Seq<char> {
    s.skip(lead_ws(s) as int)
}

/// `s` without trailing whitespace.
pub open spec fn trim_end(s: Seq<char>) -> Seq<char> {
    s.take(s.len() - trail_ws(s))
}

/// `s` without leading and trailing whitespace.
pub open spec fn trim(s: Seq<char>) -> Seq<char> {
    trim_end(trim_start(s))
}

/// The words of `s`: the maximal runs of non-whitespace characters, in order.
pub open spec fn ws_words(s: Seq<char>) -> Seq<Seq<char>>
    decreases s.len(),
{
    if s.len() == 0 {
        seq![]
    } else {
        let t = trim_start(s);
        if t.len() == 0 {
            seq![]
        } else {
            let w = word_len(t);
            proof {
                lemma_lead_ws_bound(s);
                lemma_word_len_bound(t);
                assert(t[0] == s[lead_ws(s) as int]);
            }
            seq![t.take(w as int)] + ws_words(t.skip(w as int))
        }
    }
}

/// Length of the longest non-whitespace prefix of `s`.
pub open spec fn word_len(s: Seq<char>) -> nat
    decreases s.len(),
{
    if s.len() > 0 && !is_ws(s[0]) {
        1 + word_len(s.drop_first())
    } else {
        0
    }
}

/// Length of the longest non-whitespace suffix of `s`.
pub open spec fn trail_word(s: Seq<char>) -> nat
    decreases s.len(),
{
    if s.len() > 0 && !is_ws(s.last()) {
        1 + trail_word(s.drop_last())
    } else {
        0
    }
}

/// `trail_word` is the length of the non-whitespace run at the end.
pub proof fn lemma_trail_word_exact(s: Seq<char>, i: int)
    requires
        0 <= i <= s.len(),
        forall|k: int| i <= k < s.len() ==> !is_ws(#[trigger] s[k]),
        i == 0 || is_ws(s[i - 1]),
    ensures
        trail_word(s) == s.len() - i,
    decreases s.len() - i,
{
    if i < s.len() {
        assert(!is_ws(s.last()));
        assert forall|k: int| i <= k < s.len() - 1 implies !is_ws(#[trigger] s.drop_last()[k]) by {
            assert(s.drop_last()[k] == s[k]);
        }
        if i > 0 {
            assert(s.drop_last()[i - 1] == s[i - 1]);
        }
        lemma_trail_word_exact(s.drop_last(), i);
    } else {
        if s.len() > 0 {
            assert(is_ws(s.last()));
        }
    }
}

/// Start of the whitespace run that ends at character index `k`.
pub open spec fn ws_run_start(s: Seq<char>, k: int) -> int {
    k - trail_ws(s.take(k))
}

/// Start of the non-whitespace run that ends at character index `k`.
pub open spec fn word_run_start(s: Seq<char>, k: int) -> int {
    k - trail_word(s.take(k))
}

/// End of the non-whitespace run that starts at character index `k`.
pub open spec fn word_run_end(s: Seq<char>, k: int) -> int {
    k + word_len(s.skip(k))
}

/// End of the whitespace run that starts at character index `k`.
pub open spec fn ws_run_end(s: Seq<char>, k: int) -> int {
    k + lead_ws(s.skip(k))
}

/// Walks back from `k` over whitespace.
pub fn back_over_ws(v: &[char], k: usize) -> (j: usize)
    requires
        k <= v.len(),
    ensures
        j == ws_run_start(v@, k as int),
        j <= k,
{
    let mut j = k;
    while j > 0 && is_whitespace(v[j - 1])
        invariant
            j <= k <= v.len(),
            forall|i: int| j <= i < k ==> is_ws(#[trigger] v@[i]),
        decreases j,
    {
        j = j - 1;
    }
    proof {
        let t = v@.take(k as int);
        assert forall|i: int| j <= i < t.len() implies is_ws(#[trigger] t[i]) by {
            assert(t[i] == v@[i]);
        }
        if j > 0 {
            assert(t[j - 1] == v@[j - 1]);
        }
        lemma_trail_ws_exact(t, j as int);
    }
    j
}

/// Walks back from `k` over non-whitespace.
pub fn back_over_word(v: &[char], k: usize) -> (j: usize)
    requires
        k <= v.len(),
    ensures
        j == word_run_start(v@, k as int),
        j <= k,
{
    let mut j = k;
    while j > 0 && !is_whitespace(v[j - 1])
        invariant
            j <= k <= v.len(),
            forall|i: int| j <= i < k ==> !is_ws(#[trigger] v@[i]),
        decreases j,
    {
        j = j - 1;
    }
    proof {
        let t = v@.take(k as int);
        assert forall|i: int| j <= i < t.len() implies !is_ws(#[trigger] t[i]) by {
            assert(t[i] == v@[i]);
        }
        if j > 0 {
            assert(t[j - 1] == v@[j - 1]);
        }
        lemma_trail_word_exact(t, j as int);
    }
    j
}

/// Walks forward from `k` over non-whitespace.
pub fn forward_over_word(v: &[char], k: usize) -> (j: usize)
    requires
        k <= v.len(),
    ensures
        j == word_run_end(v@, k as int),
        k <= j <= v.len(),
{
    let mut j = k;
    while j < v.len() && !is_whitespace(v[j])
        invariant
            k <= j <= v.len(),
            forall|i: int| k <= i < j ==> !is_ws(#[trigger] v@[i]),
        decreases v.len() - j,
    {
        j = j + 1;
    }
    proof {
        let t = v@.skip(k as int);
        assert forall|i: int| 0 <= i < j - k implies !is_ws(#[trigger] t[i]) by {
            assert(t[i] == v@[k + i]);
        }
        if j < v.len() {
            assert(t[j - k] == v@[j as int]);
        }
        lemma_word_len_exact(t, j - k);
    }
    j
}

/// Walks forward from `k` over whitespace.
pub fn forward_over_ws(v: &[char], k: usize) -> (j: usize)
    requires
        k <= v.len(),
    ensures
        j == ws_run_end(v@, k as int),
        k <= j <= v.len(),
{
    let mut j = k;
    while j < v.len() && is_whitespace(v[j])
        invariant
            k <= j <= v.len(),
            forall|i: int| k <= i < j ==> is_ws(#[trigger] v@[i]),
        decreases v.len() - j,
    {
        j = j + 1;
    }
    proof {
        let t = v@.skip(k as int);
        assert forall|i: int| 0 <= i < j - k implies is_ws(#[trigger] t[i]) by {
            assert(t[i] == v@[k + i]);
        }
        if j < v.len() {
            assert(t[j - k] == v@[j as int]);
        }
        lemma_lead_ws_exact(t, j - k);
    }
    j
}

/// The pieces of `s` between occurrences of `sep`: one more piece than
/// there are separators, empty pieces included.
pub open spec fn split_on(s: Seq<char>, sep: char) -> Seq<Seq<char>>
    decreases s.len(),
{
    if s.len() == 0 {
        seq![seq![]]
    } else {
        let p = split_on(s.drop_last(), sep);
        if s.last() == sep {
            p.push(seq![])
        } else {
            p.update(p.len() - 1, p.last().push(s.last()))
        }
    }
}

pub proof fn lemma_split_on_len(s: Seq<char>, sep: char)
    ensures
        split_on(s, sep).len() >= 1,
    decreases s.len(),
{
    if s.len() > 0 {
        lemma_split_on_len(s.drop_last(), sep);
    }
}

/// A piece of `split_on(s.take(j))` that a separator follows stays a
/// piece of `split_on(s)`.
pub proof fn lemma_split_prefix_kept(s: Seq<char>, sep: char, j: int, k: int)
    requires
        0 <= j <= s.len(),
        0 <= k < split_on(s.take(j), sep).len() - 1,
    ensures
        k < split_on(s, sep).len() - 1,
        split_on(s, sep)[k] == split_on(s.take(j), sep)[k],
    decreases s.len() - j,
{
    if j < s.len() {
        assert(s.take(j + 1).drop_last() =~= s.take(j));
        lemma_split_on_len(s.take(j), sep);
        let p = split_on(s.take(j), sep);
        let q = split_on(s.take(j + 1), sep);
        assert(q.len() >= p.len() && q[k] == p[k]);
        lemma_split_prefix_kept(s, sep, j + 1, k);
    } else {
        assert(s.take(j) =~= s);
    }
}

/// Longer prefixes have at least as many pieces.
pub proof fn lemma_split_len_mono(s: Seq<char>, sep: char, i: int, j: int)
    requires
        0 <= i <= j <= s.len(),
    ensures
        split_on(s.take(i), sep).len() <= split_on(s.take(j), sep).len(),
    decreases j - i,
{
    if i < j {
        assert(s.take(j).drop_last() =~= s.take(j - 1));
        lemma_split_on_len(s.take(j - 1), sep);
        lemma_split_len_mono(s, sep, i, j - 1);
    }
}

/// The pieces of `v` between occurrences of `sep`.
pub fn split_chars_on(v: &[char], sep: char) -> (r: Vec<Vec<char>>)
    ensures
        r@.map_values(|p: Vec<char>| p@) == split_on(v@, sep),
{
    let mut done: Vec<Vec<char>> = Vec::new();
    let mut piece: Vec<char> = Vec::new();
    let mut i: usize = 0;
    proof {
        assert(v@.take(0) =~= Seq::<char>::empty());
        assert(done@.map_values(|p: Vec<char>| p@).push(piece@) =~= split_on(v@.take(0), sep));
    }
    while i < v.len()
        invariant
            i <= v@.len(),
            done@.map_values(|p: Vec<char>| p@).push(piece@) == split_on(v@.take(i as int), sep),
        decreases v.len() - i,
    {
        let ghost prev = split_on(v@.take(i as int), sep);
        let ghost old_done = done@.map_values(|p: Vec<char>| p@);
        proof {
            assert(v@.take(i + 1).drop_last() =~= v@.take(i as int));
        }
        if v[i] == sep {
            let finished = piece;
            done.push(finished);
            piece = Vec::new();
            proof {
                assert(done@.map_values(|p: Vec<char>| p@) =~= prev);
                assert(done@.map_values(|p: Vec<char>| p@).push(piece@) =~= prev.push(seq![]));
            }
        } else {
            piece.push(v[i]);
            proof {
                assert(old_done.push(piece@) =~= prev.update(prev.len() - 1, prev.last().push(v@[i as int])));
            }
        }
        i = i + 1;
    }
    proof {
        assert(v@.take(v@.len() as int) =~= v@);
    }
    let last = piece;
    done.push(last);
    done
}

/// Position of the first occurrence of `p` in `s` at or after `i`.
pub open spec fn first_from(s: Seq<char>, p: Seq<char>, i: int) -> Option<int>
    decreases s.len() + 1 - i,
{
    if i < 0 || i + p.len() > s.len() {
        None
    } else if occurs_at(s, p, i) {
        Some(i)
    } else {
        first_from(s, p, i + 1)
    }
}

pub proof fn lemma_first_from(s: Seq<char>, p: Seq<char>, j: int, r: Option<int>)
    requires
        0 <= j,
        match r {
            Some(i) => j <= i && occurs_at(s, p, i) && forall|k: int| j <= k < i ==> !occurs_at(s, p, k),
            None => forall|k: int| j <= k ==> !occurs_at(s, p, k),
        },
    ensures
        first_from(s, p, j) == r,
    decreases s.len() + 1 - j,
{
    if j + p.len() <= s.len() {
        match r {
            Some(i) => {
                if i != j {
                    lemma_first_from(s, p, j + 1, r);
                }
            },
            None => {
                lemma_first_from(s, p, j + 1, r);
            },
        }
    } else {
        match r {
            Some(i) => {},
            None => {},
        }
    }
}

pub open spec fn decimal_digit(d: nat) -> char {
    seq!['0', '1', '2', '3', '4', '5', '6', '7', '8', '9'][d as int]
}

/// The decimal digits of `n`, most significant first.
pub open spec fn digits(n: nat) -> Seq<char>
    decreases n,
{
    if n < 10 {
        seq![decimal_digit(n)]
    } else {
        digits(n / 10).push(decimal_digit(n % 10))
    }
}

/// `i` written in decimal, with a leading `-` when negative.
pub open spec fn decimal(i: int) -> Seq<char> {
    if i < 0 {
        seq!['-'] + digits((-i) as nat)
    } else {
        digits(i as nat)
    }
}

fn digit_char(d: u64) -> (c: char)
    requires
        d < 10,
    ensures
        c == decimal_digit(d as nat),
{
    match d {
        0 => '0',
        1 => '1',
        2 => '2',
        3 => '3',
        4 => '4',
        5 => '5',
        6 => '6',
        7 => '7',
        8 => '8',
        _ => '9',
    }
}

/// Appends the decimal digits of `n`.
pub fn push_digits(out: &mut String, n: u64)
    ensures
        final(out)@ == old(out)@ + digits(n as nat),
    decreases n,
{
    if n >= 10 {
        push_digits(out, n / 10);
    }
    out.push(digit_char(n % 10));
    assert(out@ =~= old(out)@ + digits(n as nat));
}

/// Appends `i` in decimal.
pub fn push_decimal(out: &mut String, i: i64)
    ensures
        final(out)@ == old(out)@ + decimal(i as int),
{
    if i < 0 {
        out.push('-');
        let magnitude: u64 = (0i128 - i as i128) as u64;
        push_digits(out, magnitude);
        assert(out@ =~= old(out)@ + decimal(i as int));
    } else {
        push_digits(out, i as u64);
    }
}

/// A line without its `\r` before the `\n` that ends it.
pub open spec fn strip_cr(l: Seq<char>) -> Seq<char> {
    if l.len() > 0 && l.last() == '\r' {
        l.drop_last()
    } else {
        l
    }
}

/// The lines of `s` as `str::lines` documents them: split at `\n` or
/// `\r\n`, with the final line ending optional.
pub open spec fn text_lines(s: Seq<char>) -> Seq<Seq<char>> {
    let p = split_on(s, '\n');
    let ended = p.drop_last().map_values(|l: Seq<char>| strip_cr(l));
    if p.last().len() == 0 {
        ended
    } else {
        ended.push(p.last())
    }
}

/// The lines of `v`, as `str::lines` gives them.
pub fn lines_of(v: &[char]) -> (r: Vec<Vec<char>>)
    ensures
        r@.map_values(|l: Vec<char>| l@) == text_lines(v@),
{
    let pieces = split_chars_on(v, '\n');
    let ghost p = split_on(v@, '\n');
    proof {
        crate::text::lemma_split_on_len(v@, '\n');
        assert(pieces@.len() == p.len());
    }
    let n = pieces.len();
    let mut out: Vec<Vec<char>> = Vec::new();
    let mut i: usize = 0;
    while i + 1 < n
        invariant
            n == pieces@.len() == p.len() >= 1,
            pieces@.map_values(|l: Vec<char>| l@) == p,
            i <= n - 1,
            out@.map_values(|l: Vec<char>| l@) == p.take(i as int).map_values(|l: Seq<char>| strip_cr(l)),
        decreases n - i,
    {
        let piece = &pieces[i];
        let ghost pv = p[i as int];
        proof {
            assert(piece@ == pv);
        }
        let line = if piece.len() > 0 && piece[piece.len() - 1] == '\r' {
            sub_chars(piece.as_slice(), 0, piece.len() - 1)
        } else {
            sub_chars(piece.as_slice(), 0, piece.len())
        };
        let ghost before = out@.map_values(|l: Vec<char>| l@);
        out.push(line);
        proof {
            assert(line@ =~= strip_cr(pv));
            assert(out@.map_values(|l: Vec<char>| l@) =~= before.push(strip_cr(pv)));
            assert(p.take(i + 1).map_values(|l: Seq<char>| strip_cr(l)) =~= p.take(i as int).map_values(
                |l: Seq<char>| strip_cr(l),
            ).push(strip_cr(pv)));
        }
        i = i + 1;
    }
    proof {
        assert(p.take(n - 1) =~= p.drop_last());
    }
    let last = &pieces[n - 1];
    proof {
        assert(last@ == p.last());
    }
    if last.len() > 0 {
        let ghost before = out@.map_values(|l: Vec<char>| l@);
        let copy = sub_chars(last.as_slice(), 0, last.len());
        out.push(copy);
        proof {
            assert(copy@ =~= p.last());
            assert(out@.map_values(|l: Vec<char>| l@) =~= before.push(p.last()));
        }
    }
    out
}

/// Words joined by single spaces.
pub open spec fn join_spaces(words: Seq<Seq<char>>) -> Seq<char>
    decreases words.len(),
{
    if words.len() == 0 {
        seq![]
    } else if words.len() == 1 {
        words[0]
    } else {
        join_spaces(words.drop_last()) + seq![' '] + words.last()
    }
}

pub proof fn lemma_lead_ws_bound(s: Seq<char>)
    ensures
        lead_ws(s) <= s.len(),
        forall|i: int| 0 <= i < lead_ws(s) ==> is_ws(#[trigger] s[i]),
        lead_ws(s) < s.len() ==> !is_ws(s[lead_ws(s) as int]),
    decreases s.len(),
{
    if s.len() > 0 && is_ws(s[0]) {
        lemma_lead_ws_bound(s.drop_first());
        assert forall|i: int| 0 <= i < lead_ws(s) implies is_ws(#[trigger] s[i]) by {
            if i > 0 {
                assert(s[i] == s.drop_first()[i - 1]);
            }
        }
    }
}

pub proof fn lemma_trail_ws_bound(s: Seq<char>)
    ensures
        trail_ws(s) <= s.len(),
        forall|i: int| s.len() - trail_ws(s) <= i < s.len() ==> is_ws(#[trigger] s[i]),
        trail_ws(s) < s.len() ==> !is_ws(s[s.len() - trail_ws(s) - 1]),
    decreases s.len(),
{
    if s.len() > 0 && is_ws(s.last()) {
        lemma_trail_ws_bound(s.drop_last());
        assert forall|i: int| s.len() - trail_ws(s) <= i < s.len() implies is_ws(
            #[trigger] s[i],
        ) by {
            if i < s.len() - 1 {
                assert(s[i] == s.drop_last()[i]);
            }
        }
    }
}

pub proof fn lemma_word_len_bound(s: Seq<char>)
    ensures
        word_len(s) <= s.len(),
        forall|i: int| 0 <= i < word_len(s) ==> !is_ws(#[trigger] s[i]),
        word_len(s) < s.len() ==> is_ws(s[word_len(s) as int]),
    decreases s.len(),
{
    if s.len() > 0 && !is_ws(s[0]) {
        lemma_word_len_bound(s.drop_first());
        assert forall|i: int| 0 <= i < word_len(s) implies !is_ws(#[trigger] s[i]) by {
            if i > 0 {
                assert(s[i] == s.drop_first()[i - 1]);
            }
        }
    }
}

/// The byte length of a concatenation is the sum of the byte lengths.
pub proof fn lemma_byte_len_concat(a: Seq<char>, b: Seq<char>)
    ensures
        byte_len(a + b) == byte_len(a) + byte_len(b),
    decreases b.len(),
{
    if b.len() == 0 {
        assert(a + b =~= a);
    } else {
        lemma_byte_len_concat(a, b.drop_last());
        assert((a + b).drop_last() =~= a + b.drop_last());
    }
}

/// Every character takes at least one byte.
pub proof fn lemma_len_le_byte_len(s: Seq<char>)
    ensures
        s.len() <= byte_len(s),
    decreases s.len(),
{
    if s.len() > 0 {
        lemma_len_le_byte_len(s.drop_last());
    }
}

/// Byte length of one more character.
pub proof fn lemma_byte_len_push(a: Seq<char>, c: char)
    ensures
        byte_len(a.push(c)) == byte_len(a) + char_width(c),
{
    assert(a.push(c).drop_last() =~= a);
}

/// Byte offsets grow by the width of each character.
pub proof fn lemma_byte_offset_step(s: Seq<char>, i: int)
    requires
        0 <= i < s.len(),
    ensures
        byte_offset(s, i + 1) == byte_offset(s, i) + char_width(s[i]),
{
    assert(s.take(i + 1).drop_last() =~= s.take(i));
}

/// Byte offsets are strictly increasing in the character index.
pub proof fn lemma_byte_offset_mono(s: Seq<char>, i: int, j: int)
    requires
        0 <= i <= j <= s.len(),
    ensures
        byte_offset(s, i) <= byte_offset(s, j),
        i < j ==> byte_offset(s, i) < byte_offset(s, j),
    decreases j - i,
{
    if i < j {
        lemma_byte_offset_mono(s, i, j - 1);
        lemma_byte_offset_step(s, j - 1);
    }
}

/// A boundary determines its character index.
pub proof fn lemma_byte_offset_injective(s: Seq<char>, i: int, j: int)
    requires
        0 <= i <= s.len(),
        0 <= j <= s.len(),
        byte_offset(s, i) == byte_offset(s, j),
    ensures
        i == j,
{
    if i < j {
        lemma_byte_offset_mono(s, i, j);
    } else if j < i {
        lemma_byte_offset_mono(s, j, i);
    }
}

pub proof fn lemma_byte_offset_full(s: Seq<char>)
    ensures
        byte_offset(s, s.len() as int) == byte_len(s),
{
    assert(s.take(s.len() as int) =~= s);
}

proof fn lemma_encode_len(s: Seq<char>)
    ensures
        vstd::utf8::encode_utf8(s).len() == byte_len(s),
    decreases s.len(),
{
    if s.len() > 0 {
        lemma_encode_len(s.drop_first());
        assert(s =~= seq![s[0]] + s.drop_first());
        lemma_byte_len_concat(seq![s[0]], s.drop_first());
        assert(seq![s[0]].drop_last() =~= Seq::<char>::empty());
        assert(byte_len(Seq::<char>::empty()) == 0);
        assert(byte_len(seq![s[0]]) == char_width(s[0]));
        vstd::utf8::char_is_scalar(s[0]);
        assert(vstd::utf8::encode_scalar(s[0] as u32).len() == char_width(s[0]));
    }
}

/// The characters of `s`, and a proof that its byte length fits a `usize`.
pub fn str_chars(s: &str) -> (v: Vec<char>)
    ensures
        v@ == s@,
        byte_len(s@) <= usize::MAX,
{
    let bytes = s.as_bytes();
    let _n = bytes.len();
    proof {
        lemma_encode_len(s@);
    }
    let mut v: Vec<char> = Vec::new();
    let mut it = s.chars();
    loop
        invariant
            v@ + it.remaining() == s@,
            it.obeys_prophetic_iter_laws(),
            it.decrease() is Some,
        ensures
            v@ == s@,
        decreases it.decrease()->0,
    {
        let ghost before = it.remaining();
        match it.next() {
            Some(c) => {
                v.push(c);
                assert(v@ + it.remaining() =~= s@) by {
                    assert(before =~= seq![c] + it.remaining());
                }
            },
            None => {
                assert(v@ =~= s@);
                break ;
            },
        }
    }
    v
}

/// A `String` holding the given characters.
pub fn chars_string(v: &[char]) -> (s: String)
    ensures
        s@ == v@,
{
    let mut s = String::new();
    let mut i: usize = 0;
    while i < v.len()
        invariant
            i <= v.len(),
            s@ == v@.take(i as int),
        decreases v.len() - i,
    {
        s.push(v[i]);
        i = i + 1;
        assert(s@ =~= v@.take(i as int));
    }
    assert(v@.take(v.len() as int) =~= v@);
    s
}

/// A `String` of the characters `v[from..to]`.
pub fn chars_range_string(v: &[char], from: usize, to: usize) -> (s: String)
    requires
        from <= to <= v.len(),
    ensures
        s@ == v@.subrange(from as int, to as int),
{
    let mut s = String::new();
    let mut i: usize = from;
    while i < to
        invariant
            from <= i <= to <= v.len(),
            s@ == v@.subrange(from as int, i as int),
        decreases to - i,
    {
        s.push(v[i]);
        i = i + 1;
        assert(s@ =~= v@.subrange(from as int, i as int));
    }
    s
}

/// Appends the characters of `v` to `out`.
pub fn push_chars(out: &mut String, v: &[char])
    ensures
        final(out)@ == old(out)@ + v@,
{
    let mut i: usize = 0;
    while i < v.len()
        invariant
            i <= v.len(),
            out@ == old(out)@ + v@.take(i as int),
        decreases v.len() - i,
    {
        out.push(v[i]);
        i = i + 1;
        assert(out@ =~= old(out)@ + v@.take(i as int));
    }
    assert(v@.take(v.len() as int) =~= v@);
}

/// Appends the characters of `s` to `out`.
pub fn push_str_chars(out: &mut String, s: &str)
    ensures
        final(out)@ == old(out)@ + s@,
{
    let v = str_chars(s);
    push_chars(out, v.as_slice());
}

/// Appends the characters of `v` to the vector `out`.
pub fn extend_chars(out: &mut Vec<char>, v: &[char])
    ensures
        final(out)@ == old(out)@ + v@,
{
    let mut i: usize = 0;
    while i < v.len()
        invariant
            i <= v.len(),
            out@ == old(out)@ + v@.take(i as int),
        decreases v.len() - i,
    {
        out.push(v[i]);
        i = i + 1;
        assert(out@ =~= old(out)@ + v@.take(i as int));
    }
    assert(v@.take(v.len() as int) =~= v@);
}

/// The characters `v[from..to]` as a vector.
pub fn sub_chars(v: &[char], from: usize, to: usize) -> (r: Vec<char>)
    requires
        from <= to <= v.len(),
    ensures
        r@ == v@.subrange(from as int, to as int),
{
    let mut r: Vec<char> = Vec::new();
    let mut i: usize = from;
    while i < to
        invariant
            from <= i <= to <= v.len(),
            r@ == v@.subrange(from as int, i as int),
        decreases to - i,
    {
        r.push(v[i]);
        i = i + 1;
        assert(r@ =~= v@.subrange(from as int, i as int));
    }
    r
}

/// UTF-8 width of a character, as `char::len_utf8` returns it.
pub fn utf8_width(c: char) -> (n: usize)
    ensures
        n == char_width(c),
        1 <= n <= 4,
{
    let v = c as u32;
    if v < 0x80 {
        1
    } else if v < 0x800 {
        2
    } else if v < 0x10000 {
        3
    } else {
        4
    }
}

/// Byte length of the UTF-8 encoding of `v[..n]`.
pub fn prefix_byte_len(v: &[char], n: usize) -> (b: usize)
    requires
        n <= v.len(),
        byte_len(v@) <= usize::MAX,
    ensures
        b == byte_offset(v@, n as int),
{
    let mut b: usize = 0;
    let mut i: usize = 0;
    proof {
        lemma_byte_offset_mono(v@, n as int, v.len() as int);
        lemma_byte_offset_full(v@);
        assert(v@.take(0) =~= Seq::<char>::empty());
    }
    while i < n
        invariant
            i <= n <= v.len(),
            byte_len(v@) <= usize::MAX,
            byte_offset(v@, n as int) <= byte_len(v@),
            b == byte_offset(v@, i as int),
        decreases n - i,
    {
        proof {
            lemma_byte_offset_step(v@, i as int);
            lemma_byte_offset_mono(v@, i + 1, n as int);
        }
        b = b + utf8_width(v[i]);
        i = i + 1;
    }
    b
}

/// Byte length of the UTF-8 encoding of `v`.
pub fn chars_byte_len(v: &[char]) -> (b: usize)
    requires
        byte_len(v@) <= usize::MAX,
    ensures
        b == byte_len(v@),
{
    proof {
        lemma_byte_offset_full(v@);
    }
    prefix_byte_len(v, v.len())
}

/// The index of the character that starts at byte offset `b` if `b` is a
/// boundary, else of the last character that starts before `b`; `b` past
/// the end gives the number of characters.
pub open spec fn floor_index(s: Seq<char>, b: int) -> int {
    choose|i: int|
        0 <= i <= s.len() && #[trigger] byte_offset(s, i) <= b && (i == s.len() || b < byte_offset(
            s,
            i + 1,
        ))
}

pub proof fn lemma_floor_index(s: Seq<char>, b: int, i: int)
    requires
        0 <= i <= s.len(),
        byte_offset(s, i) <= b,
        i == s.len() || b < byte_offset(s, i + 1),
    ensures
        floor_index(s, b) == i,
{
    let j = floor_index(s, b);
    assert(0 <= j <= s.len() && byte_offset(s, j) <= b && (j == s.len() || b < byte_offset(
        s,
        j + 1,
    )));
    if j < i {
        lemma_byte_offset_mono(s, j + 1, i);
    } else if i < j {
        lemma_byte_offset_mono(s, i + 1, j);
    }
}

proof fn floor_witness(s: Seq<char>, b: int, i: int) -> (r: int)
    requires
        0 <= i <= s.len(),
        byte_offset(s, i) <= b,
    ensures
        0 <= r <= s.len(),
        byte_offset(s, r) <= b,
        r == s.len() || b < byte_offset(s, r + 1),
    decreases s.len() - i,
{
    if i == s.len() || b < byte_offset(s, i + 1) {
        i
    } else {
        floor_witness(s, b, i + 1)
    }
}

/// `floor_index` picks the boundary it describes.
pub proof fn lemma_floor_index_exists(s: Seq<char>, b: int)
    requires
        b >= 0,
    ensures
        0 <= floor_index(s, b) <= s.len(),
        byte_offset(s, floor_index(s, b)) <= b,
        floor_index(s, b) == s.len() || b < byte_offset(s, floor_index(s, b) + 1),
{
    assert(s.take(0) =~= Seq::<char>::empty());
    let i = floor_witness(s, b, 0);
    lemma_floor_index(s, b, i);
}

/// Character index of the boundary at or just before byte offset `b`.
pub fn char_index_at_or_before(v: &[char], b: usize) -> (i: usize)
    requires
        byte_len(v@) <= usize::MAX,
    ensures
        i <= v.len(),
        i == floor_index(v@, b as int),
        byte_offset(v@, i as int) <= b,
        i == v.len() || b < byte_offset(v@, i + 1),
{
    let mut i: usize = 0;
    let mut off: usize = 0;
    proof {
        assert(v@.take(0) =~= Seq::<char>::empty());
        lemma_byte_offset_full(v@);
    }
    while i < v.len()
        invariant
            i <= v.len(),
            byte_len(v@) <= usize::MAX,
            off == byte_offset(v@, i as int),
            off <= b,
        decreases v.len() - i,
    {
        proof {
            lemma_byte_offset_step(v@, i as int);
            lemma_byte_offset_mono(v@, i + 1, v.len() as int);
        }
        let w = utf8_width(v[i]);
        if w > b - off {
            proof {
                lemma_floor_index(v@, b as int, i as int);
            }
            return i;
        }
        off = off + w;
        i = i + 1;
    }
    proof {
        lemma_floor_index(v@, b as int, i as int);
    }
    i
}

pub fn is_whitespace(c: char) -> (r: bool)
    ensures
        r == is_ws(c),
{
    c == ' ' || ('\t' <= c && c <= '\r') || c == '\u{85}' || c == '\u{a0}' || c == '\u{1680}' || (
    '\u{2000}' <= c && c <= '\u{200a}') || c == '\u{2028}' || c == '\u{2029}' || c == '\u{202f}'
        || c == '\u{205f}' || c == '\u{3000}'
}

pub fn is_control(c: char) -> (r: bool)
    ensures
        r == is_ctrl(c),
{
    let v = c as u32;
    v < 0x20 || (0x7f <= v && v <= 0x9f)
}

pub fn is_alnum(c: char) -> (r: bool)
    ensures
        r == is_ascii_alnum(c),
{
    ('0' <= c && c <= '9') || ('a' <= c && c <= 'z') || ('A' <= c && c <= 'Z')
}

/// Whether `s` starts with `p`.
pub fn starts_with(s: &[char], p: &[char]) -> (r: bool)
    ensures
        r == has_prefix(s@, p@),
{
    if p.len() > s.len() {
        return false;
    }
    let mut i: usize = 0;
    while i < p.len()
        invariant
            i <= p.len() <= s.len(),
            forall|j: int| 0 <= j < i ==> s@[j] == p@[j],
        decreases p.len() - i,
    {
        if s[i] != p[i] {
            assert(s@.take(p.len() as int)[i as int] != p@[i as int]);
            return false;
        }
        i = i + 1;
    }
    assert(s@.take(p.len() as int) =~= p@);
    true
}

/// Whether `s` ends with `p`.
pub fn ends_with(s: &[char], p: &[char]) -> (r: bool)
    ensures
        r == has_suffix(s@, p@),
{
    if p.len() > s.len() {
        return false;
    }
    let off = s.len() - p.len();
    let mut i: usize = 0;
    while i < p.len()
        invariant
            i <= p.len() <= s.len(),
            off == s.len() - p.len(),
            forall|j: int| 0 <= j < i ==> s@[off + j] == p@[j],
        decreases p.len() - i,
    {
        if s[off + i] != p[i] {
            assert(s@.skip(off as int)[i as int] != p@[i as int]);
            return false;
        }
        i = i + 1;
    }
    assert(s@.skip(off as int) =~= p@);
    true
}

/// Whether the two character sequences are equal.
pub fn chars_eq(a: &[char], b: &[char]) -> (r: bool)
    ensures
        r == (a@ == b@),
{
    if a.len() != b.len() {
        return false;
    }
    let r = starts_with(a, b);
    assert(a@.take(b.len() as int) =~= a@);
    r
}

/// Whether `p` occurs at position `i` of `s`.
pub fn occurs_at_exec(s: &[char], p: &[char], i: usize) -> (r: bool)
    ensures
        r == occurs_at(s@, p@, i as int),
{
    if i > s.len() || p.len() > s.len() - i {
        return false;
    }
    let mut j: usize = 0;
    while j < p.len()
        invariant
            j <= p.len(),
            i + p.len() <= s.len(),
            forall|k: int| 0 <= k < j ==> s@[i + k] == p@[k],
        decreases p.len() - j,
    {
        if s[i + j] != p[j] {
            assert(s@.subrange(i as int, i + p.len())[j as int] != p@[j as int]);
            return false;
        }
        j = j + 1;
    }
    assert(s@.subrange(i as int, i + p.len()) =~= p@);
    true
}

/// Position of the first occurrence of `p` in `s`.
pub fn find(s: &[char], p: &[char]) -> (r: Option<usize>)
    ensures
        match r {
            Some(i) => occurs_at(s@, p@, i as int) && forall|k: int|
                0 <= k < i ==> !occurs_at(s@, p@, k),
            None => !has_infix(s@, p@),
        },
{
    if p.len() > s.len() {
        return None;
    }
    let last = s.len() - p.len();
    let mut i: usize = 0;
    loop
        invariant
            p.len() <= s.len(),
            last == s.len() - p.len(),
            i <= last,
            forall|k: int| 0 <= k < i ==> !occurs_at(s@, p@, k),
        decreases last - i,
    {
        if occurs_at_exec(s, p, i) {
            return Some(i);
        }
        if i == last {
            assert forall|k: int| !occurs_at(s@, p@, k) by {
                if 0 <= k <= i {
                }
            }
            return None;
        }
        i = i + 1;
    }
}

/// Whether `p` occurs in `s`.
pub fn contains(s: &[char], p: &[char]) -> (r: bool)
    ensures
        r == has_infix(s@, p@),
{
    match find(s, p) {
        Some(_) => true,
        None => false,
    }
}

/// Whether `c` occurs in `s`.
pub fn contains_char(s: &[char], c: char) -> (r: bool)
    ensures
        r == s@.contains(c),
{
    let mut i: usize = 0;
    while i < s.len()
        invariant
            i <= s.len(),
            forall|k: int| 0 <= k < i ==> s@[k] != c,
        decreases s.len() - i,
    {
        if s[i] == c {
            return true;
        }
        i = i + 1;
    }
    false
}

/// Whether every character of `s` is whitespace.
pub fn all_whitespace(s: &[char]) -> (r: bool)
    ensures
        r == all_ws(s@),
{
    let mut i: usize = 0;
    while i < s.len()
        invariant
            i <= s.len(),
            forall|k: int| 0 <= k < i ==> is_ws(#[trigger] s@[k]),
        decreases s.len() - i,
    {
        if !is_whitespace(s[i]) {
            return false;
        }
        i = i + 1;
    }
    true
}

/// `s` with the whitespace characters removed.
pub fn remove_whitespace(s: &[char]) -> (r: Vec<char>)
    ensures
        r@ == without_ws(s@),
{
    let mut r: Vec<char> = Vec::new();
    let mut i: usize = 0;
    while i < s.len()
        invariant
            i <= s.len(),
            r@ == without_ws(s@.take(i as int)),
        decreases s.len() - i,
    {
        proof {
            assert(s@.take(i + 1).drop_last() =~= s@.take(i as int));
            reveal_with_fuel(Seq::filter, 1);
        }
        if !is_whitespace(s[i]) {
            r.push(s[i]);
        }
        i = i + 1;
    }
    assert(s@.take(s.len() as int) =~= s@);
    r
}

/// Number of leading whitespace characters.
pub fn count_lead_ws(s: &[char]) -> (n: usize)
    ensures
        n == lead_ws(s@),
{
    let mut i: usize = 0;
    while i < s.len() && is_whitespace(s[i])
        invariant
            i <= s.len(),
            forall|k: int| 0 <= k < i ==> is_ws(#[trigger] s@[k]),
        decreases s.len() - i,
    {
        i = i + 1;
    }
    proof {
        lemma_lead_ws_exact(s@, i as int);
    }
    i
}

/// `lead_ws` is the first non-whitespace position.
/// Trimming twice is trimming once.
pub proof fn lemma_trim_idempotent(s: Seq<char>)
    ensures
        trim(trim(s)) == trim(s),
{
    let a = trim_start(s);
    let t = trim(s);
    lemma_lead_ws_bound(s);
    lemma_trail_ws_bound(a);
    if t.len() == 0 {
        assert(lead_ws(t) == 0);
        assert(trim_start(t) =~= t);
        assert(trail_ws(t) == 0);
        assert(trim_end(t) =~= t);
    } else {
        assert(t[0] == a[0]);
        assert(a[0] == s[lead_ws(s) as int]);
        assert(t[t.len() - 1] == a[a.len() - trail_ws(a) - 1]);
        lemma_lead_ws_exact(t, 0);
        assert(trim_start(t) =~= t);
        lemma_trail_ws_exact(t, t.len() as int);
        assert(trim_end(t) =~= t);
    }
}

pub proof fn lemma_lead_ws_exact(s: Seq<char>, i: int)
    requires
        0 <= i <= s.len(),
        forall|k: int| 0 <= k < i ==> is_ws(#[trigger] s[k]),
        i == s.len() || !is_ws(s[i]),
    ensures
        lead_ws(s) == i,
    decreases i,
{
    if i > 0 {
        assert(is_ws(s[0]));
        assert forall|k: int| 0 <= k < i - 1 implies is_ws(#[trigger] s.drop_first()[k]) by {
            assert(s.drop_first()[k] == s[k + 1]);
        }
        lemma_lead_ws_exact(s.drop_first(), i - 1);
    } else {
        if s.len() > 0 {
            assert(!is_ws(s[0]));
        }
    }
}

/// `trail_ws` is the length of the whitespace run at the end.
pub proof fn lemma_trail_ws_exact(s: Seq<char>, i: int)
    requires
        0 <= i <= s.len(),
        forall|k: int| i <= k < s.len() ==> is_ws(#[trigger] s[k]),
        i == 0 || !is_ws(s[i - 1]),
    ensures
        trail_ws(s) == s.len() - i,
    decreases s.len() - i,
{
    if i < s.len() {
        assert(is_ws(s.last()));
        assert forall|k: int| i <= k < s.len() - 1 implies is_ws(#[trigger] s.drop_last()[k]) by {
            assert(s.drop_last()[k] == s[k]);
        }
        if i > 0 {
            assert(s.drop_last()[i - 1] == s[i - 1]);
        }
        lemma_trail_ws_exact(s.drop_last(), i);
    } else {
        if s.len() > 0 {
            assert(!is_ws(s.last()));
        }
    }
}

/// `word_len` is the first whitespace position.
pub proof fn lemma_word_len_exact(s: Seq<char>, i: int)
    requires
        0 <= i <= s.len(),
        forall|k: int| 0 <= k < i ==> !is_ws(#[trigger] s[k]),
        i == s.len() || is_ws(s[i]),
    ensures
        word_len(s) == i,
    decreases i,
{
    if i > 0 {
        assert forall|k: int| 0 <= k < i - 1 implies !is_ws(#[trigger] s.drop_first()[k]) by {
            assert(s.drop_first()[k] == s[k + 1]);
        }
        lemma_word_len_exact(s.drop_first(), i - 1);
    } else {
        if s.len() > 0 {
            assert(is_ws(s[0]));
        }
    }
}

/// Number of trailing whitespace characters.
pub fn count_trail_ws(s: &[char]) -> (n: usize)
    ensures
        n == trail_ws(s@),
{
    let mut i: usize = s.len();
    while i > 0 && is_whitespace(s[i - 1])
        invariant
            i <= s.len(),
            forall|k: int| i <= k < s.len() ==> is_ws(#[trigger] s@[k]),
        decreases i,
    {
        i = i - 1;
    }
    proof {
        lemma_trail_ws_exact(s@, i as int);
    }
    s.len() - i
}

/// `s` without leading and trailing whitespace.
pub fn trim_chars(s: &[char]) -> (r: Vec<char>)
    ensures
        r@ == trim(s@),
{
    let a = count_lead_ws(s);
    proof {
        lemma_lead_ws_bound(s@);
    }
    let rest = sub_chars(s, a, s.len());
    let b = count_trail_ws(rest.as_slice());
    proof {
        lemma_trail_ws_bound(rest@);
    }
    sub_chars(rest.as_slice(), 0, rest.len() - b)
}

/// `s` without trailing whitespace.
pub fn trim_end_chars(s: &[char]) -> (r: Vec<char>)
    ensures
        r@ == trim_end(s@),
{
    let b = count_trail_ws(s);
    proof {
        lemma_trail_ws_bound(s@);
    }
    sub_chars(s, 0, s.len() - b)
}

/// `s` without leading whitespace.
pub fn trim_start_chars(s: &[char]) -> (r: Vec<char>)
    ensures
        r@ == trim_start(s@),
{
    let a = count_lead_ws(s);
    proof {
        lemma_lead_ws_bound(s@);
    }
    sub_chars(s, a, s.len())
}

/// The whitespace-separated words of `s`.
pub fn split_whitespace(s: &[char]) -> (r: Vec<Vec<char>>)
    ensures
        r@.len() == ws_words(s@).len(),
        forall|k: int| 0 <= k < r@.len() ==> #[trigger] r@[k]@ == ws_words(s@)[k],
{
    let mut r: Vec<Vec<char>> = Vec::new();
    let mut i: usize = 0;
    assert(s@.skip(0) =~= s@);
    while i < s.len()
        invariant
            i <= s.len(),
            r@.len() + ws_words(s@.skip(i as int)).len() == ws_words(s@).len(),
            forall|k: int| 0 <= k < r@.len() ==> #[trigger] r@[k]@ == ws_words(s@)[k],
            forall|k: int|
                0 <= k < ws_words(s@.skip(i as int)).len() ==> #[trigger] ws_words(
                    s@.skip(i as int),
                )[k] == ws_words(s@)[r@.len() + k],
        decreases s.len() - i,
    {
        let ghost rest = s@.skip(i as int);
        let mut j: usize = i;
        while j < s.len() && is_whitespace(s[j])
            invariant
                i <= j <= s.len(),
                forall|k: int| i <= k < j ==> is_ws(#[trigger] s@[k]),
            decreases s.len() - j,
        {
            j = j + 1;
        }
        proof {
            assert forall|k: int| 0 <= k < j - i implies is_ws(#[trigger] rest[k]) by {
                assert(rest[k] == s@[i + k]);
            }
            if j < s.len() {
                assert(rest[j - i] == s@[j as int]);
            }
            lemma_lead_ws_exact(rest, j - i);
            assert(trim_start(rest) =~= s@.skip(j as int));
        }
        if j == s.len() {
            proof {
                assert(ws_words(rest) =~= Seq::<Seq<char>>::empty());
                assert(s@.skip(j as int) =~= Seq::<char>::empty());
            }
            i = j;
        } else {
            let mut e: usize = j;
            while e < s.len() && !is_whitespace(s[e])
                invariant
                    j <= e <= s.len(),
                    forall|k: int| j <= k < e ==> !is_ws(#[trigger] s@[k]),
                decreases s.len() - e,
            {
                e = e + 1;
            }
            let ghost t = s@.skip(j as int);
            proof {
                assert forall|k: int| 0 <= k < e - j implies !is_ws(#[trigger] t[k]) by {
                    assert(t[k] == s@[j + k]);
                }
                if e < s.len() {
                    assert(t[e - j] == s@[e as int]);
                }
                lemma_word_len_exact(t, e - j);
                assert(t.take(e - j) =~= s@.subrange(j as int, e as int));
                assert(t.skip(e - j) =~= s@.skip(e as int));
                assert(ws_words(rest) == seq![t.take(e - j)] + ws_words(s@.skip(e as int)));
            }
            let w = sub_chars(s, j, e);
            r.push(w);
            proof {
                assert forall|k: int| 0 <= k < ws_words(s@.skip(e as int)).len() implies #[trigger] ws_words(
                    s@.skip(e as int),
                )[k] == ws_words(s@)[r@.len() + k] by {
                    assert(ws_words(s@.skip(e as int))[k] == ws_words(rest)[k + 1]);
                }
                assert(ws_words(rest)[0] == t.take(e - j));
            }
            i = e;
        }
    }
    proof {
        assert(s@.skip(i as int) =~= Seq::<char>::empty());
    }
    r
}

} // verus!
