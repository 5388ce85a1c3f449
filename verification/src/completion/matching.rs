//! When a candidate matches what was typed: prefix matching that may
//! ignore spaces, word-by-word thresholds, edit-distance similarity for
//! typos, and template placeholders.
use vstd::prelude::*;
use crate::text::{
    contains_char, ends_with, has_prefix, has_suffix, is_alnum, is_ascii_alnum, join_spaces,
    push_chars, remove_whitespace, split_whitespace, starts_with, str_chars, sub_chars,
    without_ws, ws_words,
};
use super::types::TokenContext;

verus! {

/// The character views of a list of strings.
pub open spec fn views(v: Seq<String>) -> Seq<Seq<char>> {
    v.map_values(|s: String| s@)
}

/// `numerator` as a whole percentage of `denominator` (0 for an empty
/// denominator), rounded down.
pub open spec fn percent(numerator: int, denominator: int) -> int {
    if denominator == 0 {
        0
    } else {
        numerator * 100 / denominator
    }
}

/// Levenshtein distance between two character sequences.
pub open spec fn lev(a: Seq<char>, b: Seq<char>) -> nat
    decreases a.len() + b.len(),
{
    if a.len() == 0 {
        b.len()
    } else if b.len() == 0 {
        a.len()
    } else {
        let del = lev(a.drop_last(), b) + 1;
        let ins = lev(a, b.drop_last()) + 1;
        let sub = lev(a.drop_last(), b.drop_last()) + if a.last() == b.last() {
            0nat
        } else {
            1nat
        };
        let m = if del <= ins {
            del
        } else {
            ins
        };
        if m <= sub {
            m
        } else {
            sub
        }
    }
}

pub proof fn lemma_lev_bound(a: Seq<char>, b: Seq<char>)
    ensures
        lev(a, b) <= if a.len() >= b.len() {
            a.len()
        } else {
            b.len()
        },
    decreases a.len() + b.len(),
{
    if a.len() > 0 && b.len() > 0 {
        lemma_lev_bound(a.drop_last(), b.drop_last());
    }
}

/// Whether `p` is a prefix of `c` once whitespace is removed from both.
pub open spec fn compact_prefix(c: Seq<char>, p: Seq<char>) -> bool {
    has_prefix(without_ws(c), without_ws(p))
}

/// Each typed word is a prefix of the candidate word in the same position.
pub open spec fn words_prefix(cw: Seq<Seq<char>>, pw: Seq<Seq<char>>) -> bool {
    pw.len() <= cw.len() && forall|i: int| 0 <= i < pw.len() ==> has_prefix(cw[i], pw[i])
}

/// Whether the candidate completes the typed prefix.  With
/// `ignore_spaces`, either the space-free texts match by prefix, or each
/// typed word is a prefix of the candidate's word in that position.
pub open spec fn prefix_match(c: Seq<char>, p: Seq<char>, ignore_spaces: bool) -> bool {
    p.len() > 0 && if !ignore_spaces {
        has_prefix(c, p)
    } else {
        compact_prefix(c, p) || words_prefix(ws_words(c), ws_words(p))
    }
}

/// Whether a typed word is a prefix of a candidate word.
pub open spec fn word_prefix_match(c: Seq<char>, t: Seq<char>, ignore_spaces: bool) -> bool {
    t.len() > 0 && if ignore_spaces {
        compact_prefix(c, t)
    } else {
        has_prefix(c, t)
    }
}

/// Similarity of two words as a percentage: the share of the longer word
/// that the edit distance leaves unchanged.
pub open spec fn similarity(c: Seq<char>, t: Seq<char>, ignore_spaces: bool) -> int {
    let c2 = if ignore_spaces {
        without_ws(c)
    } else {
        c
    };
    let t2 = if ignore_spaces {
        without_ws(t)
    } else {
        t
    };
    if c2.len() == 0 || t2.len() == 0 {
        0
    } else {
        let m = if c2.len() >= t2.len() {
            c2.len()
        } else {
            t2.len()
        };
        let d = lev(c2, t2);
        let kept = if d <= m {
            m - d
        } else {
            0
        };
        percent(kept, m as int)
    }
}

pub open spec fn placeholder_char(c: char) -> bool {
    is_ascii_alnum(c) || c == '_' || c == '-'
}

pub open spec fn is_placeholder_name(n: Seq<char>) -> bool {
    n.len() > 0 && forall|i: int| 0 <= i < n.len() ==> placeholder_char(#[trigger] n[i])
}

/// Index of the first `c` in `s`, or the length.
pub open spec fn first_index(s: Seq<char>, c: char) -> int
    decreases s.len(),
{
    if s.len() == 0 {
        0
    } else if s[0] == c {
        0
    } else {
        1 + first_index(s.drop_first(), c)
    }
}

/// The placeholder name of a template word `{name}`, `{name...}` or
/// `{name:hint}`.
pub open spec fn placeholder_name(w: Seq<char>) -> Option<Seq<char>> {
    if w.len() >= 2 && w[0] == '{' && w.last() == '}' {
        let inner = w.subrange(1, w.len() - 1);
        let name = if has_suffix(inner, seq!['.', '.', '.']) {
            inner.take(inner.len() - 3)
        } else if inner.contains(':') {
            inner.take(first_index(inner, ':'))
        } else {
            inner
        };
        if is_placeholder_name(name) {
            Some(name)
        } else {
            None
        }
    } else {
        None
    }
}

pub open spec fn is_placeholder(w: Seq<char>) -> bool {
    placeholder_name(w) is Some
}

/// How a word of a candidate is compared with a typed word.
#[derive(Debug, Clone, Copy, PartialEq, Eq, Structural)]
pub enum WordRule {
    /// A typed word must be a prefix of the candidate word.
    Prefix,
    /// As `Prefix`, and a template placeholder matches any typed word.
    Template,
}

/// Structural match of one word under a rule.
pub open spec fn word_rule_match(rule: WordRule, c: Seq<char>, t: Seq<char>, ignore_spaces: bool) -> bool {
    match rule {
        WordRule::Prefix => word_prefix_match(c, t, ignore_spaces),
        WordRule::Template => is_placeholder(c) || word_prefix_match(c, t, ignore_spaces),
    }
}

/// Typo match of one word under a rule.
pub open spec fn word_rule_typo(
    rule: WordRule,
    c: Seq<char>,
    t: Seq<char>,
    ignore_spaces: bool,
    typo_threshold: int,
) -> bool {
    match rule {
        WordRule::Prefix => similarity(c, t, ignore_spaces) >= typo_threshold,
        WordRule::Template => !is_placeholder(c) && similarity(c, t, ignore_spaces) >= typo_threshold,
    }
}

/// Number of the first `n` typed words that match structurally.
pub open spec fn structural_count(
    rule: WordRule,
    cw: Seq<Seq<char>>,
    tw: Seq<Seq<char>>,
    ignore_spaces: bool,
    n: int,
) -> int
    decreases n,
{
    if n <= 0 {
        0
    } else {
        structural_count(rule, cw, tw, ignore_spaces, n - 1) + if word_rule_match(
            rule,
            cw[n - 1],
            tw[n - 1],
            ignore_spaces,
        ) {
            1int
        } else {
            0
        }
    }
}

/// Number of the first `n` typed words that match structurally or as a
/// typo.
pub open spec fn typo_count(
    rule: WordRule,
    cw: Seq<Seq<char>>,
    tw: Seq<Seq<char>>,
    ignore_spaces: bool,
    typo_threshold: int,
    n: int,
) -> int
    decreases n,
{
    if n <= 0 {
        0
    } else {
        typo_count(rule, cw, tw, ignore_spaces, typo_threshold, n - 1) + if word_rule_match(
            rule,
            cw[n - 1],
            tw[n - 1],
            ignore_spaces,
        ) || word_rule_typo(rule, cw[n - 1], tw[n - 1], ignore_spaces, typo_threshold) {
            1int
        } else {
            0
        }
    }
}

/// The typed word `i` matches only as a typo.
pub open spec fn typo_only(
    rule: WordRule,
    cw: Seq<Seq<char>>,
    tw: Seq<Seq<char>>,
    ignore_spaces: bool,
    typo_threshold: int,
    i: int,
) -> bool {
    !word_rule_match(rule, cw[i], tw[i], ignore_spaces) && word_rule_typo(
        rule,
        cw[i],
        tw[i],
        ignore_spaces,
        typo_threshold,
    )
}

/// Whether some typed word matches only as a typo.
pub open spec fn uses_typo(
    rule: WordRule,
    cw: Seq<Seq<char>>,
    tw: Seq<Seq<char>>,
    ignore_spaces: bool,
    typo_threshold: int,
) -> bool {
    exists|i: int| 0 <= i < tw.len() && #[trigger] typo_only(rule, cw, tw, ignore_spaces, typo_threshold, i)
}

pub open spec fn min_100(t: int) -> int {
    if t <= 100 {
        t
    } else {
        100
    }
}

/// The typed words cover at least the threshold share of matching words
/// in their positions of the candidate.
pub open spec fn words_threshold(
    rule: WordRule,
    cw: Seq<Seq<char>>,
    tw: Seq<Seq<char>>,
    ignore_spaces: bool,
    threshold: int,
) -> bool {
    tw.len() > 0 && cw.len() >= tw.len() && percent(
        structural_count(rule, cw, tw, ignore_spaces, tw.len() as int),
        tw.len() as int,
    ) >= min_100(threshold)
}

/// As `words_threshold`, counting typo matches too, and only when at
/// least one word needed the typo rule.
pub open spec fn words_threshold_typos(
    rule: WordRule,
    cw: Seq<Seq<char>>,
    tw: Seq<Seq<char>>,
    ignore_spaces: bool,
    threshold: int,
    typo_threshold: int,
) -> bool {
    tw.len() > 0 && cw.len() >= tw.len() && uses_typo(rule, cw, tw, ignore_spaces, typo_threshold)
        && percent(
        typo_count(rule, cw, tw, ignore_spaces, typo_threshold, tw.len() as int),
        tw.len() as int,
    ) >= min_100(threshold)
}

/// `numerator * 100 / denominator`, or 0 for an empty denominator.
pub fn percent_of(numerator: usize, denominator: usize) -> (r: usize)
    requires
        numerator <= denominator,
    ensures
        r == percent(numerator as int, denominator as int),
        r <= 100,
{
    if denominator == 0 {
        return 0;
    }
    let n = numerator as u128;
    let d = denominator as u128;
    proof {
        assert(n * 100 <= d * 100) by (nonlinear_arith)
            requires
                n <= d,
        ;
        assert((n as int * 100) / (d as int) <= 100) by (nonlinear_arith)
            requires
                n as int * 100 <= d as int * 100,
                d > 0,
        ;
    }
    let r = (n * 100) / d;
    r as usize
}

/// Levenshtein distance, computed row by row.
pub fn edit_distance(left: &[char], right: &[char]) -> (r: usize)
    ensures
        r == lev(left@, right@),
{
    let m = right.len();
    // `prev[j - 1]` holds the distance to the first `j` characters of `right`;
    // the distance to none of them is the row number.
    let mut prev: Vec<usize> = Vec::new();
    let mut j: usize = 0;
    while j < m
        invariant
            j <= m == right@.len(),
            prev@.len() == j,
            forall|k: int| 0 <= k < j ==> prev@[k] == k + 1,
        decreases m - j,
    {
        prev.push(j + 1);
        j = j + 1;
    }
    proof {
        assert forall|k: int| 0 <= k < m implies prev@[k] == lev(left@.take(0), right@.take(k + 1)) by {
            assert(left@.take(0).len() == 0);
        }
    }
    let mut i: usize = 0;
    while i < left.len()
        invariant
            i <= left@.len(),
            m == right@.len(),
            prev@.len() == m,
            forall|k: int| 0 <= k < m ==> #[trigger] prev@[k] == lev(left@.take(i as int), right@.take(k + 1)),
        decreases left.len() - i,
    {
        let ghost a = left@.take(i as int);
        let ghost a2 = left@.take(i + 1);
        proof {
            assert(a2.drop_last() =~= a);
            assert(a2.last() == left@[i as int]);
        }
        let mut cur: Vec<usize> = Vec::new();
        // distance to the first `j` characters of `right`, for the row above
        // and this row
        let mut diag: usize = i;
        let mut left_val: usize = i + 1;
        proof {
            assert(right@.take(0).len() == 0);
            assert(lev(a, right@.take(0)) == i);
            assert(lev(a2, right@.take(0)) == i + 1);
        }
        let mut j: usize = 0;
        while j < m
            invariant
                i < left@.len(),
                a == left@.take(i as int),
                a2 == left@.take(i + 1),
                a2.drop_last() == a,
                a2.last() == left@[i as int],
                j <= m == right@.len(),
                prev@.len() == m,
                forall|k: int| 0 <= k < m ==> #[trigger] prev@[k] == lev(a, right@.take(k + 1)),
                cur@.len() == j,
                forall|k: int| 0 <= k < j ==> #[trigger] cur@[k] == lev(a2, right@.take(k + 1)),
                diag == lev(a, right@.take(j as int)),
                left_val == lev(a2, right@.take(j as int)),
            decreases m - j,
        {
            let ghost b = right@.take(j + 1);
            proof {
                assert(b.drop_last() =~= right@.take(j as int));
                assert(b.last() == right@[j as int]);
                lemma_lev_bound(a, right@.take(j as int));
            }
            let up = prev[j];
            let cost: usize = if left[i] == right[j] {
                0
            } else {
                1
            };
            let best = if up <= left_val {
                up
            } else {
                left_val
            };
            let val = if best < diag + cost {
                best + 1
            } else {
                diag + cost
            };
            proof {
                assert(lev(a2, b) == val);
            }
            cur.push(val);
            diag = up;
            left_val = val;
            j = j + 1;
        }
        prev = cur;
        i = i + 1;
    }
    if m == 0 {
        proof {
            assert(right@.len() == 0);
            assert(left@.take(i as int) =~= left@);
        }
        return left.len();
    }
    proof {
        assert(left@.take(i as int) =~= left@);
        assert(right@.take(m as int) =~= right@);
    }
    prev[m - 1]
}

/// Whether `typed` (non-empty) is a prefix of `candidate`, optionally
/// ignoring whitespace in both.
pub fn word_prefix_matches(candidate: &str, typed: &str, ignore_spaces: bool) -> (r: bool)
    ensures
        r == word_prefix_match(candidate@, typed@, ignore_spaces),
{
    let c = str_chars(candidate);
    let t = str_chars(typed);
    if t.len() == 0 {
        return false;
    }
    if ignore_spaces {
        let c2 = remove_whitespace(c.as_slice());
        let t2 = remove_whitespace(t.as_slice());
        return starts_with(c2.as_slice(), t2.as_slice());
    }
    starts_with(c.as_slice(), t.as_slice())
}

/// Similarity percentage of a typed word to a candidate word.
pub fn typo_similarity_percent(candidate: &str, typed: &str, ignore_spaces: bool) -> (r: usize)
    ensures
        r == similarity(candidate@, typed@, ignore_spaces),
        r <= 100,
{
    let c0 = str_chars(candidate);
    let t0 = str_chars(typed);
    let c = if ignore_spaces {
        remove_whitespace(c0.as_slice())
    } else {
        c0
    };
    let t = if ignore_spaces {
        remove_whitespace(t0.as_slice())
    } else {
        t0
    };
    if c.len() == 0 || t.len() == 0 {
        return 0;
    }
    let d = edit_distance(c.as_slice(), t.as_slice());
    let m = if c.len() >= t.len() {
        c.len()
    } else {
        t.len()
    };
    let kept = if d <= m {
        m - d
    } else {
        0
    };
    percent_of(kept, m)
}

/// Whether `prefix` matches the start of `candidate`; see `prefix_match`.
/// The threshold is accepted for interface compatibility and does not
/// change the result.
pub fn matches_completion_prefix_with_threshold(
    candidate: &str,
    prefix: &str,
    ignore_spaces: bool,
    _match_threshold_percent: usize,
) -> (r: bool)
    ensures
        r == prefix_match(candidate@, prefix@, ignore_spaces),
{
    let c = str_chars(candidate);
    let p = str_chars(prefix);
    if p.len() == 0 {
        return false;
    }
    if !ignore_spaces {
        return starts_with(c.as_slice(), p.as_slice());
    }
    let cc = remove_whitespace(c.as_slice());
    let pc = remove_whitespace(p.as_slice());
    if starts_with(cc.as_slice(), pc.as_slice()) {
        return true;
    }
    let cw = split_whitespace(c.as_slice());
    let pw = split_whitespace(p.as_slice());
    if pw.len() > cw.len() {
        return false;
    }
    let mut i: usize = 0;
    while i < pw.len()
        invariant
            i <= pw@.len() <= cw@.len(),
            cw@.len() == ws_words(c@).len(),
            pw@.len() == ws_words(p@).len(),
            forall|k: int| 0 <= k < cw@.len() ==> #[trigger] cw@[k]@ == ws_words(c@)[k],
            forall|k: int| 0 <= k < pw@.len() ==> #[trigger] pw@[k]@ == ws_words(p@)[k],
            forall|k: int| 0 <= k < i ==> has_prefix(ws_words(c@)[k], ws_words(p@)[k]),
            c@ == candidate@,
            p@ == prefix@,
            p@.len() > 0,
            ignore_spaces,
            !compact_prefix(candidate@, prefix@),
        decreases pw.len() - i,
    {
        if !starts_with(cw[i].as_slice(), pw[i].as_slice()) {
            assert(!has_prefix(ws_words(c@)[i as int], ws_words(p@)[i as int]));
            return false;
        }
        i = i + 1;
    }
    true
}

pub fn matches_completion_prefix(candidate: &str, prefix: &str, ignore_spaces: bool) -> (r: bool)
    ensures
        r == prefix_match(candidate@, prefix@, ignore_spaces),
{
    matches_completion_prefix_with_threshold(candidate, prefix, ignore_spaces, 50)
}

/// The placeholder name of a template word, if it is a placeholder.
pub fn template_word_placeholder_name(word: &[char]) -> (r: Option<Vec<char>>)
    ensures
        match r {
            Some(n) => placeholder_name(word@) == Some(n@),
            None => placeholder_name(word@) is None,
        },
{
    let n = word.len();
    if n < 2 || word[0] != '{' || word[n - 1] != '}' {
        return None;
    }
    let inner = sub_chars(word, 1, n - 1);
    let dots: [char; 3] = ['.', '.', '.'];
    proof {
        assert(dots@ =~= seq!['.', '.', '.']);
    }
    let name = if ends_with(inner.as_slice(), dots.as_slice()) {
        sub_chars(inner.as_slice(), 0, inner.len() - 3)
    } else if contains_char(inner.as_slice(), ':') {
        let mut k: usize = 0;
        assert(inner@.skip(0) =~= inner@);
        while k < inner.len() && inner[k] != ':'
            invariant
                k <= inner@.len(),
                first_index(inner@, ':') == k + first_index(inner@.skip(k as int), ':'),
            decreases inner.len() - k,
        {
            proof {
                let t = inner@.skip(k as int);
                assert(t[0] == inner@[k as int]);
                assert(t.drop_first() =~= inner@.skip(k + 1));
            }
            k = k + 1;
        }
        proof {
            if k < inner.len() {
                assert(inner@.skip(k as int)[0] == ':');
            } else {
                assert(inner@.skip(k as int).len() == 0);
            }
        }
        sub_chars(inner.as_slice(), 0, k)
    } else {
        sub_chars(inner.as_slice(), 0, inner.len())
    };
    let ghost spec_name = if has_suffix(inner@, seq!['.', '.', '.']) {
        inner@.take(inner@.len() - 3)
    } else if inner@.contains(':') {
        inner@.take(first_index(inner@, ':'))
    } else {
        inner@
    };
    proof {
        assert(inner@.take(inner@.len() as int) =~= inner@);
        assert(name@ =~= spec_name);
        assert(inner@ =~= word@.subrange(1, word@.len() - 1));
    }
    if name.len() == 0 {
        return None;
    }
    assert(placeholder_name(word@) == if is_placeholder_name(name@) {
        Some(name@)
    } else {
        None
    });
    let mut i: usize = 0;
    while i < name.len()
        invariant
            i <= name@.len(),
            forall|k: int| 0 <= k < i ==> placeholder_char(#[trigger] name@[k]),
            name@.len() > 0,
            placeholder_name(word@) == if is_placeholder_name(name@) {
                Some(name@)
            } else {
                None
            },
        decreases name.len() - i,
    {
        let c = name[i];
        if !(is_alnum(c) || c == '_' || c == '-') {
            assert(!placeholder_char(name@[i as int]));
            return None;
        }
        i = i + 1;
    }
    Some(name)
}

pub fn template_word_is_placeholder(word: &str) -> (r: bool)
    ensures
        r == is_placeholder(word@),
{
    let w = str_chars(word);
    match template_word_placeholder_name(w.as_slice()) {
        Some(_) => true,
        None => false,
    }
}

/// Whether a candidate word matches a typed word under `rule`.
pub fn rule_matches(rule: WordRule, candidate: &str, typed: &str, ignore_spaces: bool) -> (r: bool)
    ensures
        r == word_rule_match(rule, candidate@, typed@, ignore_spaces),
{
    match rule {
        WordRule::Prefix => word_prefix_matches(candidate, typed, ignore_spaces),
        WordRule::Template => template_word_is_placeholder(candidate) || word_prefix_matches(
            candidate,
            typed,
            ignore_spaces,
        ),
    }
}

/// Whether a candidate word matches a typed word as a typo under `rule`.
pub fn rule_typo_matches(
    rule: WordRule,
    candidate: &str,
    typed: &str,
    ignore_spaces: bool,
    typo_threshold_percent: usize,
) -> (r: bool)
    ensures
        r == word_rule_typo(rule, candidate@, typed@, ignore_spaces, typo_threshold_percent as int),
{
    match rule {
        WordRule::Prefix => typo_similarity_percent(candidate, typed, ignore_spaces)
            >= typo_threshold_percent,
        WordRule::Template => !template_word_is_placeholder(candidate) && typo_similarity_percent(
            candidate,
            typed,
            ignore_spaces,
        ) >= typo_threshold_percent,
    }
}

/// See `words_threshold`.
pub fn words_match_threshold_by(
    rule: WordRule,
    candidate_words: &[String],
    typed_words: &[String],
    ignore_spaces: bool,
    match_threshold_percent: usize,
) -> (r: bool)
    ensures
        r == words_threshold(
            rule,
            views(candidate_words@),
            views(typed_words@),
            ignore_spaces,
            match_threshold_percent as int,
        ),
{
    let ghost cw = views(candidate_words@);
    let ghost tw = views(typed_words@);
    if typed_words.len() == 0 || candidate_words.len() < typed_words.len() {
        return false;
    }
    let mut matched: usize = 0;
    let mut i: usize = 0;
    while i < typed_words.len()
        invariant
            i <= typed_words@.len() <= candidate_words@.len(),
            cw == views(candidate_words@),
            tw == views(typed_words@),
            matched == structural_count(rule, cw, tw, ignore_spaces, i as int),
            matched <= i,
        decreases typed_words.len() - i,
    {
        if rule_matches(rule, candidate_words[i].as_str(), typed_words[i].as_str(), ignore_spaces) {
            matched = matched + 1;
        }
        i = i + 1;
    }
    let t = if match_threshold_percent <= 100 {
        match_threshold_percent
    } else {
        100
    };
    percent_of(matched, typed_words.len()) >= t
}

/// See `words_threshold_typos`.
pub fn words_match_threshold_with_typo_usage_by(
    rule: WordRule,
    candidate_words: &[String],
    typed_words: &[String],
    ignore_spaces: bool,
    match_threshold_percent: usize,
    typo_threshold_percent: usize,
) -> (r: bool)
    ensures
        r == words_threshold_typos(
            rule,
            views(candidate_words@),
            views(typed_words@),
            ignore_spaces,
            match_threshold_percent as int,
            typo_threshold_percent as int,
        ),
{
    let ghost cw = views(candidate_words@);
    let ghost tw = views(typed_words@);
    if typed_words.len() == 0 || candidate_words.len() < typed_words.len() {
        return false;
    }
    let mut matched: usize = 0;
    let mut used_typo = false;
    let mut i: usize = 0;
    while i < typed_words.len()
        invariant
            i <= typed_words@.len() <= candidate_words@.len(),
            cw == views(candidate_words@),
            tw == views(typed_words@),
            matched == typo_count(rule, cw, tw, ignore_spaces, typo_threshold_percent as int, i as int),
            matched <= i,
            used_typo == exists|k: int|
                0 <= k < i && #[trigger] typo_only(
                    rule,
                    cw,
                    tw,
                    ignore_spaces,
                    typo_threshold_percent as int,
                    k,
                ),
        decreases typed_words.len() - i,
    {
        if rule_matches(rule, candidate_words[i].as_str(), typed_words[i].as_str(), ignore_spaces) {
            matched = matched + 1;
        } else if rule_typo_matches(
            rule,
            candidate_words[i].as_str(),
            typed_words[i].as_str(),
            ignore_spaces,
            typo_threshold_percent,
        ) {
            matched = matched + 1;
            used_typo = true;
            assert(typo_only(rule, cw, tw, ignore_spaces, typo_threshold_percent as int, i as int));
        } else {
            assert(!typo_only(rule, cw, tw, ignore_spaces, typo_threshold_percent as int, i as int));
        }
        i = i + 1;
    }
    let t = if match_threshold_percent <= 100 {
        match_threshold_percent
    } else {
        100
    };
    used_typo && percent_of(matched, typed_words.len()) >= t
}

pub fn words_match_threshold(
    candidate_words: &[String],
    typed_words: &[String],
    ignore_spaces: bool,
    match_threshold_percent: usize,
) -> (r: bool)
    ensures
        r == words_threshold(
            WordRule::Prefix,
            views(candidate_words@),
            views(typed_words@),
            ignore_spaces,
            match_threshold_percent as int,
        ),
{
    words_match_threshold_by(
        WordRule::Prefix,
        candidate_words,
        typed_words,
        ignore_spaces,
        match_threshold_percent,
    )
}

pub fn template_words_match_threshold(
    template_words: &[String],
    typed_words: &[String],
    ignore_spaces: bool,
    match_threshold_percent: usize,
) -> (r: bool)
    ensures
        r == words_threshold(
            WordRule::Template,
            views(template_words@),
            views(typed_words@),
            ignore_spaces,
            match_threshold_percent as int,
        ),
{
    words_match_threshold_by(
        WordRule::Template,
        template_words,
        typed_words,
        ignore_spaces,
        match_threshold_percent,
    )
}

pub fn words_match_threshold_with_typos(
    candidate_words: &[String],
    typed_words: &[String],
    ignore_spaces: bool,
    match_threshold_percent: usize,
    typo_threshold_percent: usize,
) -> (r: bool)
    ensures
        r == words_threshold_typos(
            WordRule::Prefix,
            views(candidate_words@),
            views(typed_words@),
            ignore_spaces,
            match_threshold_percent as int,
            typo_threshold_percent as int,
        ),
{
    words_match_threshold_with_typo_usage_by(
        WordRule::Prefix,
        candidate_words,
        typed_words,
        ignore_spaces,
        match_threshold_percent,
        typo_threshold_percent,
    )
}

pub fn template_words_match_threshold_with_typos(
    template_words: &[String],
    typed_words: &[String],
    ignore_spaces: bool,
    match_threshold_percent: usize,
    typo_threshold_percent: usize,
) -> (r: bool)
    ensures
        r == words_threshold_typos(
            WordRule::Template,
            views(template_words@),
            views(typed_words@),
            ignore_spaces,
            match_threshold_percent as int,
            typo_threshold_percent as int,
        ),
{
    words_match_threshold_with_typo_usage_by(
        WordRule::Template,
        template_words,
        typed_words,
        ignore_spaces,
        match_threshold_percent,
        typo_threshold_percent,
    )
}

/// The matching rules with their settings.
#[derive(Debug, Clone, Copy, PartialEq, Eq, Structural)]
pub struct CompletionMatcher {
    pub ignore_spaces: bool,
    pub match_threshold_percent: usize,
    pub typo_threshold_percent: usize,
}

impl CompletionMatcher {
    pub fn new(ignore_spaces: bool, match_threshold_percent: usize, typo_threshold_percent: usize) -> (r: Self)
        ensures
            r == (CompletionMatcher { ignore_spaces, match_threshold_percent, typo_threshold_percent }),
    {
        CompletionMatcher { ignore_spaces, match_threshold_percent, typo_threshold_percent }
    }

    pub fn prefix_matches(&self, candidate: &str, typed: &str) -> (r: bool)
        ensures
            r == prefix_match(candidate@, typed@, self.ignore_spaces),
    {
        matches_completion_prefix_with_threshold(
            candidate,
            typed,
            self.ignore_spaces,
            self.match_threshold_percent,
        )
    }

    pub fn word_prefix_matches(&self, candidate: &str, typed: &str) -> (r: bool)
        ensures
            r == word_prefix_match(candidate@, typed@, self.ignore_spaces),
    {
        word_prefix_matches(candidate, typed, self.ignore_spaces)
    }

    pub fn typo_similarity_percent(&self, candidate: &str, typed: &str) -> (r: usize)
        ensures
            r == similarity(candidate@, typed@, self.ignore_spaces),
    {
        typo_similarity_percent(candidate, typed, self.ignore_spaces)
    }

    pub fn typo_matches(&self, candidate: &str, typed: &str) -> (r: bool)
        ensures
            r == (similarity(candidate@, typed@, self.ignore_spaces)
                >= self.typo_threshold_percent),
    {
        typo_similarity_percent(candidate, typed, self.ignore_spaces) >= self.typo_threshold_percent
    }

    pub fn words_match_threshold(&self, candidate_words: &[String], typed_words: &[String]) -> (r:
        bool)
        ensures
            r == words_threshold(
                WordRule::Prefix,
                views(candidate_words@),
                views(typed_words@),
                self.ignore_spaces,
                self.match_threshold_percent as int,
            ),
    {
        words_match_threshold(
            candidate_words,
            typed_words,
            self.ignore_spaces,
            self.match_threshold_percent,
        )
    }

    pub fn template_words_match_threshold(&self, template_words: &[String], typed_words: &[String]) -> (r:
        bool)
        ensures
            r == words_threshold(
                WordRule::Template,
                views(template_words@),
                views(typed_words@),
                self.ignore_spaces,
                self.match_threshold_percent as int,
            ),
    {
        template_words_match_threshold(
            template_words,
            typed_words,
            self.ignore_spaces,
            self.match_threshold_percent,
        )
    }

    pub fn words_match_threshold_with_typos(&self, candidate_words: &[String], typed_words: &[String]) -> (r:
        bool)
        ensures
            r == words_threshold_typos(
                WordRule::Prefix,
                views(candidate_words@),
                views(typed_words@),
                self.ignore_spaces,
                self.match_threshold_percent as int,
                self.typo_threshold_percent as int,
            ),
    {
        words_match_threshold_with_typos(
            candidate_words,
            typed_words,
            self.ignore_spaces,
            self.match_threshold_percent,
            self.typo_threshold_percent,
        )
    }

    pub fn template_words_match_threshold_with_typos(
        &self,
        template_words: &[String],
        typed_words: &[String],
    ) -> (r: bool)
        ensures
            r == words_threshold_typos(
                WordRule::Template,
                views(template_words@),
                views(typed_words@),
                self.ignore_spaces,
                self.match_threshold_percent as int,
                self.typo_threshold_percent as int,
            ),
    {
        template_words_match_threshold_with_typos(
            template_words,
            typed_words,
            self.ignore_spaces,
            self.match_threshold_percent,
            self.typo_threshold_percent,
        )
    }
}

/// Words joined by single spaces.
pub fn join_words(words: &[String]) -> (r: String)
    ensures
        r@ == join_spaces(views(words@)),
{
    let mut out = String::new();
    let mut i: usize = 0;
    while i < words.len()
        invariant
            i <= words@.len(),
            out@ == join_spaces(views(words@).take(i as int)),
        decreases words.len() - i,
    {
        let w = str_chars(words[i].as_str());
        proof {
            let vs = views(words@);
            assert(vs.take(i + 1).drop_last() =~= vs.take(i as int));
            assert(vs.take(i + 1).last() == words@[i as int]@);
        }
        if i > 0 {
            out.push(' ');
        }
        push_chars(&mut out, w.as_slice());
        proof {
            let vs = views(words@);
            if i == 0 {
                assert(vs.take(1) =~= seq![words@[0]@]);
                assert(out@ =~= join_spaces(vs.take(1)));
            }
        }
        i = i + 1;
    }
    proof {
        assert(views(words@).take(words@.len() as int) =~= views(words@));
    }
    out
}

/// The template continuation from word `current_word_index` on: the
/// template's own words, unless the current word is a placeholder that the
/// typed token does not match, in which case the typed token replaces it.
pub open spec fn template_replacement(
    words: Seq<Seq<char>>,
    idx: int,
    token: Seq<char>,
    ignore_spaces: bool,
) -> Seq<char> {
    let w = words[idx];
    if token.len() == 0 || !is_placeholder(w) {
        join_spaces(words.skip(idx))
    } else if has_prefix(token, seq!['{']) || prefix_match(w, token, ignore_spaces) || prefix_match(
        placeholder_name(w)->0,
        token,
        ignore_spaces,
    ) {
        join_spaces(words.skip(idx))
    } else if idx + 1 >= words.len() {
        token
    } else {
        token + seq![' '] + join_spaces(words.skip(idx + 1))
    }
}

/// See `template_replacement`.
pub fn template_replacement_for_index(
    template_words: &[String],
    current_word_index: usize,
    token: &TokenContext,
    ignore_spaces: bool,
    match_threshold_percent: usize,
) -> (r: String)
    requires
        current_word_index < template_words@.len(),
    ensures
        r@ == template_replacement(
            views(template_words@),
            current_word_index as int,
            token.text@,
            ignore_spaces,
        ),
{
    let ghost ws = views(template_words@);
    let idx = current_word_index;
    let whole = sub_strings(template_words, idx);
    proof {
        assert(views(whole@) =~= ws.skip(idx as int));
    }
    let tw = str_chars(template_words[idx].as_str());
    let name = template_word_placeholder_name(tw.as_slice());
    let text = str_chars(token.text.as_str());
    let name = match name {
        None => {
            return join_words(whole.as_slice());
        },
        Some(n) => n,
    };
    if text.len() == 0 {
        return join_words(whole.as_slice());
    }
    let brace: [char; 1] = ['{'];
    proof {
        assert(brace@ =~= seq!['{']);
    }
    let name_str = crate::text::chars_string(name.as_slice());
    if starts_with(text.as_slice(), brace.as_slice()) || matches_completion_prefix_with_threshold(
        template_words[idx].as_str(),
        token.text.as_str(),
        ignore_spaces,
        match_threshold_percent,
    ) || matches_completion_prefix_with_threshold(
        name_str.as_str(),
        token.text.as_str(),
        ignore_spaces,
        match_threshold_percent,
    ) {
        return join_words(whole.as_slice());
    }
    if idx + 1 >= template_words.len() {
        return token.text.clone();
    }
    let rest = sub_strings(template_words, idx + 1);
    proof {
        assert(views(rest@) =~= ws.skip(idx + 1));
    }
    let mut out = String::new();
    push_chars(&mut out, text.as_slice());
    out.push(' ');
    let joined = join_words(rest.as_slice());
    let jc = str_chars(joined.as_str());
    push_chars(&mut out, jc.as_slice());
    out
}

/// Copies of the strings from index `from` on.
pub fn sub_strings(v: &[String], from: usize) -> (r: Vec<String>)
    requires
        from <= v@.len(),
    ensures
        views(r@) == views(v@).skip(from as int),
{
    let mut r: Vec<String> = Vec::new();
    let mut i = from;
    while i < v.len()
        invariant
            from <= i <= v@.len(),
            views(r@) == views(v@).subrange(from as int, i as int),
        decreases v.len() - i,
    {
        let item = v[i].clone();
        let ghost old_r = r@;
        r.push(item);
        proof {
            assert(views(r@) =~= views(old_r).push(v@[i as int]@));
            assert(views(v@).subrange(from as int, i + 1) =~= views(v@).subrange(
                from as int,
                i as int,
            ).push(v@[i as int]@));
        }
        i = i + 1;
    }
    r
}

} // verus!
