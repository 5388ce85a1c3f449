//! Completion of file paths from directory listings: which entries match,
//! how they are shown, and how the replacement is quoted for the shell.
use vstd::prelude::*;
use crate::picker::{escape_single_quotes, push_escaped_single_quotes};
use crate::text::{
    chars_string, contains_char, has_prefix, is_ascii_alnum, is_control, is_ctrl, is_whitespace, is_ws,
    push_chars, push_str_chars, split_chars_on, split_on, starts_with, str_chars, sub_chars,
};
use super::matching::{edit_distance, lev, similarity, typo_similarity_percent};
use super::types::{cview, cviews, dedup_views, CandView, CompletionCandidate, CompletionOptions, CompletionSource};
use super::parser::{shell_word_value, word_value};
use super::path_sort::{lemma_path_sorted_map, path_sorted, sort_path_candidates, sort_path_completion_bases};
use super::ranking::{dedupe_completion_candidates, lemma_dedup_views};
use super::worker::opt_str_view;
use crate::config::paths::{join_path, joined, opt_chars};

verus! {

broadcast use vstd::string::group_string_axioms;

/// An entry of a directory listing.
#[derive(Debug, Clone, PartialEq, Eq)]
pub struct PathEntry {
    pub name: String,
    pub is_dir: bool,
}

/// A directory to complete in: how it is shown before the names, and its
/// entries (sorted by name).
#[derive(Debug, Clone, PartialEq, Eq)]
pub struct PathListing {
    pub display_dir: String,
    pub entries: Vec<PathEntry>,
}

/// A directory that a path completion looks in, and how the names found
/// there are shown: the part of the token before them.
#[derive(Debug, Clone)]
pub struct PathCompletionBase {
    pub search_dir: String,
    pub display_dir: String,
}

// ---------------------------------------------------------------------
// Showing and quoting
// ---------------------------------------------------------------------

/// The directory as shown, the name, and `/` after a directory.
pub open spec fn path_display(dir: Seq<char>, name: Seq<char>, is_dir: bool) -> Seq<char> {
    dir + name + if is_dir {
        seq!['/']
    } else {
        seq![]
    }
}

pub fn format_path_display(display_dir: &str, name: &str, is_dir: bool) -> (r: String)
    ensures
        r@ == path_display(display_dir@, name@, is_dir),
{
    let mut display = String::new();
    push_str_chars(&mut display, display_dir);
    push_str_chars(&mut display, name);
    if is_dir {
        display.push('/');
    }
    display
}

/// A token starting with `~/` has the shell expand the home directory.
pub fn home_tilde_expansion_is_active(raw_token: &str) -> (r: bool)
    ensures
        r == has_prefix(raw_token@, seq!['~', '/']),
{
    let mut p: Vec<char> = Vec::new();
    p.push('~');
    p.push('/');
    assert(p@ =~= seq!['~', '/']);
    starts_with(str_chars(raw_token).as_slice(), p.as_slice())
}

/// Characters that need no backslash outside quotes.
pub open spec fn unquoted_safe(c: char) -> bool {
    ||| is_ascii_alnum(c)
    ||| c == '/' || c == '.' || c == '_' || c == '-' || c == ':' || c == '~'
    ||| ((c as u32) >= 128 && !is_ws(c) && !is_ctrl(c))
}

pub fn is_unquoted_path_safe_char(c: char) -> (r: bool)
    ensures
        r == unquoted_safe(c),
{
    (('0' <= c && c <= '9') || ('a' <= c && c <= 'z') || ('A' <= c && c <= 'Z')) || c == '/' || c == '.' || c
        == '_' || c == '-' || c == ':' || c == '~' || ((c as u32) >= 128 && !is_whitespace(c) && !is_control(c))
}

/// The value in single quotes.
pub open spec fn single_quoted(v: Seq<char>) -> Seq<char> {
    seq!['\''] + escape_single_quotes(v) + seq!['\'']
}

pub fn single_quoted_path(value: &str) -> (r: String)
    ensures
        r@ == single_quoted(value@),
{
    let mut out = String::new();
    out.push('\'');
    push_escaped_single_quotes(&mut out, str_chars(value).as_slice());
    out.push('\'');
    out
}

/// Characters escaped inside double quotes.
pub open spec fn double_quote_special(c: char) -> bool {
    c == '"' || c == '\\' || c == '$' || c == '`'
}

pub open spec fn double_escaped(s: Seq<char>) -> Seq<char>
    decreases s.len(),
{
    if s.len() == 0 {
        seq![]
    } else {
        double_escaped(s.drop_last()) + if double_quote_special(s.last()) {
            seq!['\\', s.last()]
        } else {
            seq![s.last()]
        }
    }
}

pub fn double_quoted_path(value: &str) -> (r: String)
    ensures
        r@ == seq!['"'] + double_escaped(value@) + seq!['"'],
{
    let v = str_chars(value);
    let mut out = String::new();
    out.push('"');
    let mut i: usize = 0;
    assert(v@.take(0) =~= Seq::<char>::empty());
    while i < v.len()
        invariant
            i <= v@.len(),
            out@ == seq!['"'] + double_escaped(v@.take(i as int)),
        decreases v@.len() - i,
    {
        assert(v@.take(i + 1).drop_last() =~= v@.take(i as int));
        let c = v[i];
        if c == '"' || c == '\\' || c == '$' || c == '`' {
            out.push('\\');
        }
        out.push(c);
        i = i + 1;
        assert(out@ =~= seq!['"'] + double_escaped(v@.take(i as int)));
    }
    assert(v@.take(v@.len() as int) =~= v@);
    out.push('"');
    out
}

/// One character outside quotes: a backslash before it unless it is safe;
/// a leading `~` that must stay literal gets one too.
pub open spec fn unquoted_piece(c: char, literal_tilde: bool) -> Seq<char> {
    if literal_tilde && c == '~' {
        seq!['\\', c]
    } else if unquoted_safe(c) {
        seq![c]
    } else {
        seq!['\\', c]
    }
}

pub open spec fn unquoted_upto(s: Seq<char>, n: int, literal_tilde: bool) -> Seq<char>
    decreases n,
{
    if n <= 0 {
        seq![]
    } else {
        unquoted_upto(s, n - 1, literal_tilde) + unquoted_piece(s[n - 1], n - 1 == 0 && literal_tilde)
    }
}

/// The value escaped for use outside quotes; a value with a line break
/// is single-quoted instead.
pub open spec fn unquoted(v: Seq<char>, literal_tilde: bool) -> Seq<char> {
    if v.contains('\n') {
        single_quoted(v)
    } else {
        unquoted_upto(v, v.len() as int, literal_tilde)
    }
}

pub fn unquoted_path(value: &str, literal_leading_tilde: bool) -> (r: String)
    ensures
        r@ == unquoted(value@, literal_leading_tilde),
{
    let v = str_chars(value);
    if contains_char(v.as_slice(), '\n') {
        return single_quoted_path(value);
    }
    let mut out = String::new();
    let mut i: usize = 0;
    while i < v.len()
        invariant
            i <= v@.len(),
            out@ == unquoted_upto(v@, i as int, literal_leading_tilde),
        decreases v@.len() - i,
    {
        let c = v[i];
        if i == 0 && c == '~' && literal_leading_tilde {
            out.push('\\');
            out.push(c);
        } else if is_unquoted_path_safe_char(c) {
            out.push(c);
        } else {
            out.push('\\');
            out.push(c);
        }
        i = i + 1;
        assert(out@ =~= unquoted_upto(v@, i as int, literal_leading_tilde));
    }
    out
}

/// The replacement for a shown path, quoted as the token was opened.
pub open spec fn path_replacement_of(quote: Option<char>, v: Seq<char>, literal_tilde: bool) -> Seq<char> {
    match quote {
        Some(q) => if q == '\'' {
            single_quoted(v)
        } else if q == '"' {
            seq!['"'] + double_escaped(v) + seq!['"']
        } else {
            unquoted(v, literal_tilde)
        },
        None => unquoted(v, literal_tilde),
    }
}

pub fn path_replacement(quote: Option<char>, value: &str, literal_leading_tilde: bool) -> (r: String)
    ensures
        r@ == path_replacement_of(quote, value@, literal_leading_tilde),
{
    match quote {
        Some('\'') => single_quoted_path(value),
        Some('"') => double_quoted_path(value),
        _ => unquoted_path(value, literal_leading_tilde),
    }
}

// ---------------------------------------------------------------------
// Components
// ---------------------------------------------------------------------

/// The nonempty pieces of a path between slashes.
pub open spec fn components_of(v: Seq<char>) -> Seq<Seq<char>> {
    split_on(v, '/').filter(|p: Seq<char>| p.len() > 0)
}

pub fn path_components(value: &str) -> (r: Vec<String>)
    ensures
        r@.map_values(|s: String| s@) == components_of(value@),
{
    let pieces = split_chars_on(str_chars(value).as_slice(), '/');
    let ghost ps = split_on(value@, '/');
    let mut out: Vec<String> = Vec::new();
    let mut i: usize = 0;
    assert(ps.take(0) =~= Seq::<Seq<char>>::empty());
    while i < pieces.len()
        invariant
            i <= pieces@.len(),
            pieces@.map_values(|p: Vec<char>| p@) == ps,
            out@.map_values(|s: String| s@) == ps.take(i as int).filter(|p: Seq<char>| p.len() > 0),
        decreases pieces@.len() - i,
    {
        assert(ps.take(i + 1).drop_last() =~= ps.take(i as int));
        assert(ps.take(i + 1).last() == pieces@[i as int]@);
        reveal_with_fuel(Seq::filter, 1);
        let ghost before = out@.map_values(|s: String| s@);
        if pieces[i].len() > 0 {
            out.push(chars_string(pieces[i].as_slice()));
            assert(out@.map_values(|s: String| s@) =~= before.push(pieces@[i as int]@));
        }
        i = i + 1;
    }
    assert(ps.take(pieces@.len() as int) =~= ps);
    out
}

/// The last nonempty component of a path.
pub open spec fn last_component(v: Seq<char>) -> Option<Seq<char>> {
    let c = components_of(v);
    if c.len() > 0 {
        Some(c.last())
    } else {
        None
    }
}

pub fn last_path_component(path: &str) -> (r: Option<String>)
    ensures
        match last_component(path@) {
            Some(c) => r matches Some(s) && s@ == c,
            None => r is None,
        },
{
    let mut c = path_components(path);
    let ghost cs = c@.map_values(|s: String| s@);
    if c.len() > 0 {
        assert(cs.last() == c@[c@.len() - 1]@);
        c.pop()
    } else {
        None
    }
}

/// A name that starts with a dot, other than `.` and `..`.
pub open spec fn hidden_name(c: Seq<char>) -> bool {
    c.len() > 0 && c[0] == '.' && c != seq!['.'] && c != seq!['.', '.']
}

fn is_hidden_name(c: &str) -> (r: bool)
    ensures
        r == hidden_name(c@),
{
    let v = str_chars(c);
    if v.len() == 0 || v[0] != '.' {
        return false;
    }
    if v.len() == 1 {
        assert(v@ =~= seq!['.']);
        return false;
    }
    if v.len() == 2 && v[1] == '.' {
        assert(v@ =~= seq!['.', '.']);
        return false;
    }
    assert(v@ != seq!['.'] && v@ != seq!['.', '.']) by {
        if v@.len() == 2 {
            assert(v@[1] != seq!['.', '.'][1]);
        }
    }
    true
}

/// A path is hidden when its last component is; trailing slashes do not
/// count, as they add no component.
pub open spec fn path_hidden(p: Seq<char>) -> bool {
    match last_component(p) {
        Some(c) => hidden_name(c),
        None => false,
    }
}

pub fn path_text_is_hidden(path: &str) -> (r: bool)
    ensures
        r == path_hidden(path@),
{
    match last_path_component(path) {
        Some(c) => is_hidden_name(c.as_str()),
        None => false,
    }
}

/// A candidate is hidden when its last component is.
pub fn path_candidate_is_hidden(candidate: &CompletionCandidate) -> (r: bool)
    ensures
        r == path_hidden(candidate.display@),
{
    path_text_is_hidden(candidate.display.as_str())
}

// ---------------------------------------------------------------------
// Typo matches of directory names
// ---------------------------------------------------------------------

/// A directory name close enough to what was typed (three characters or
/// more): similar enough, or the same first character, lengths of at
/// least three that differ by at most one, and one edit apart.
pub open spec fn directory_typo(candidate: Seq<char>, typed: Seq<char>, options: CompletionOptions) -> bool {
    if typed.len() < 3 {
        false
    } else if similarity(candidate, typed, options.ignore_spaces) >= options.typo_threshold_percent {
        true
    } else {
        &&& candidate.len() > 0 && candidate[0] == typed[0]
        &&& candidate.len() >= 3
        &&& candidate.len() <= typed.len() + 1 && typed.len() <= candidate.len() + 1
        &&& lev(candidate, typed) <= 1
    }
}

pub fn directory_typo_matches(candidate: &str, typed: &str, options: CompletionOptions) -> (r: bool)
    ensures
        r == directory_typo(candidate@, typed@, options),
{
    let c = str_chars(candidate);
    let t = str_chars(typed);
    if t.len() < 3 {
        return false;
    }
    if typo_similarity_percent(candidate, typed, options.ignore_spaces) >= options.typo_threshold_percent {
        return true;
    }
    c.len() > 0 && c[0] == t[0] && c.len() >= 3 && c.len() - 1 <= t.len() && t.len() - 1 <= c.len()
        && edit_distance(c.as_slice(), t.as_slice()) <= 1
}

// ---------------------------------------------------------------------
// Candidates from listings
// ---------------------------------------------------------------------

pub open spec fn path_view(
    dir: Seq<char>,
    e: PathEntry,
    quote: Option<char>,
    literal_tilde: bool,
    is_dir: bool,
) -> CandView {
    let d = path_display(dir, e.name@, is_dir);
    (d, path_replacement_of(quote, d, literal_tilde), is_dir, CompletionSource::Path)
}

/// The entries of one listing that start with `prefix`, as candidates.
pub open spec fn prefix_views(
    dir: Seq<char>,
    es: Seq<PathEntry>,
    prefix: Seq<char>,
    quote: Option<char>,
    literal_tilde: bool,
) -> Seq<CandView>
    decreases es.len(),
{
    if es.len() == 0 {
        seq![]
    } else {
        let rest = prefix_views(dir, es.drop_last(), prefix, quote, literal_tilde);
        let e = es.last();
        if has_prefix(e.name@, prefix) {
            rest.push(path_view(dir, e, quote, literal_tilde, e.is_dir))
        } else {
            rest
        }
    }
}

/// The directories of one listing that do not start with `prefix` but are
/// a typo of it, as candidates.
pub open spec fn typo_views(
    dir: Seq<char>,
    es: Seq<PathEntry>,
    prefix: Seq<char>,
    quote: Option<char>,
    literal_tilde: bool,
    options: CompletionOptions,
) -> Seq<CandView>
    decreases es.len(),
{
    if es.len() == 0 {
        seq![]
    } else {
        let rest = typo_views(dir, es.drop_last(), prefix, quote, literal_tilde, options);
        let e = es.last();
        if e.is_dir && !has_prefix(e.name@, prefix) && directory_typo(e.name@, prefix, options) {
            rest.push(path_view(dir, e, quote, literal_tilde, true))
        } else {
            rest
        }
    }
}

/// Some directory of the listings starts with `prefix`.
pub open spec fn prefix_directory(ls: Seq<PathListing>, prefix: Seq<char>) -> bool {
    exists|i: int, j: int|
        0 <= i < ls.len() && 0 <= j < ls[i].entries@.len() && (#[trigger] ls[i].entries@[j]).is_dir && has_prefix(
            ls[i].entries@[j].name@,
            prefix,
        )
}

pub open spec fn all_prefix_views(ls: Seq<PathListing>, prefix: Seq<char>, quote: Option<char>, literal_tilde: bool) -> Seq<
    CandView,
>
    decreases ls.len(),
{
    if ls.len() == 0 {
        seq![]
    } else {
        all_prefix_views(ls.drop_last(), prefix, quote, literal_tilde) + prefix_views(
            ls.last().display_dir@,
            ls.last().entries@,
            prefix,
            quote,
            literal_tilde,
        )
    }
}

pub open spec fn all_typo_views(
    ls: Seq<PathListing>,
    prefix: Seq<char>,
    quote: Option<char>,
    literal_tilde: bool,
    options: CompletionOptions,
) -> Seq<CandView>
    decreases ls.len(),
{
    if ls.len() == 0 {
        seq![]
    } else {
        all_typo_views(ls.drop_last(), prefix, quote, literal_tilde, options) + typo_views(
            ls.last().display_dir@,
            ls.last().entries@,
            prefix,
            quote,
            literal_tilde,
            options,
        )
    }
}

/// The path candidates: the entries starting with `prefix`; when none of
/// them is a directory and typo options allow it, also the directories
/// that are typos of `prefix`.
pub open spec fn path_candidates(
    ls: Seq<PathListing>,
    prefix: Seq<char>,
    quote: Option<char>,
    literal_tilde: bool,
    typo_options: Option<CompletionOptions>,
) -> Seq<CandView> {
    let found = all_prefix_views(ls, prefix, quote, literal_tilde);
    match typo_options {
        Some(o) => if !prefix_directory(ls, prefix) && o.fuzzy_enabled {
            found + all_typo_views(ls, prefix, quote, literal_tilde, o)
        } else {
            found
        },
        None => found,
    }
}

fn path_candidate(dir: &str, e: &PathEntry, quote: Option<char>, literal_tilde: bool, is_dir: bool) -> (r: CompletionCandidate)
    ensures
        cview(r) == path_view(dir@, *e, quote, literal_tilde, is_dir),
{
    let display = format_path_display(dir, e.name.as_str(), is_dir);
    let replacement = path_replacement(quote, display.as_str(), literal_tilde);
    CompletionCandidate { display, replacement, is_dir, source: CompletionSource::Path }
}

/// Candidates from listed directories; see `path_candidates`.
pub fn complete_path_from_bases(
    listings: &Vec<PathListing>,
    prefix: &str,
    quote: Option<char>,
    literal_leading_tilde: bool,
    typo_options: Option<CompletionOptions>,
) -> (r: Vec<CompletionCandidate>)
    ensures
        cviews(r@) == path_candidates(listings@, prefix@, quote, literal_leading_tilde, typo_options),
{
    let p = str_chars(prefix);
    let mut out: Vec<CompletionCandidate> = Vec::new();
    let mut seen_dir = false;
    let mut b: usize = 0;
    assert(listings@.take(0) =~= Seq::<PathListing>::empty());
    while b < listings.len()
        invariant
            b <= listings@.len(),
            p@ == prefix@,
            cviews(out@) == all_prefix_views(listings@.take(b as int), prefix@, quote, literal_leading_tilde),
            seen_dir == prefix_directory(listings@.take(b as int), prefix@),
        decreases listings@.len() - b,
    {
        let listing = &listings[b];
        let ghost before = cviews(out@);
        let ghost seen_before = seen_dir;
        let mut k: usize = 0;
        assert(listing.entries@.take(0) =~= Seq::<PathEntry>::empty());
        while k < listing.entries.len()
            invariant
                k <= listing.entries@.len(),
                b < listings@.len(),
                *listing == listings@[b as int],
                p@ == prefix@,
                cviews(out@) == before + prefix_views(
                    listing.display_dir@,
                    listing.entries@.take(k as int),
                    prefix@,
                    quote,
                    literal_leading_tilde,
                ),
                seen_dir == (seen_before || exists|j: int|
                    0 <= j < k && (#[trigger] listing.entries@[j]).is_dir && has_prefix(
                        listing.entries@[j].name@,
                        prefix@,
                    )),
            decreases listing.entries@.len() - k,
        {
            let e = &listing.entries[k];
            assert(listing.entries@.take(k + 1).drop_last() =~= listing.entries@.take(k as int));
            assert(listing.entries@.take(k + 1).last() == *e);
            if starts_with(str_chars(e.name.as_str()).as_slice(), p.as_slice()) {
                if e.is_dir {
                    seen_dir = true;
                }
                let c = path_candidate(listing.display_dir.as_str(), e, quote, literal_leading_tilde, e.is_dir);
                let ghost mid = cviews(out@);
                out.push(c);
                assert(cviews(out@) =~= mid.push(cview(c)));
            }
            k = k + 1;
        }
        assert(listing.entries@.take(listing.entries@.len() as int) =~= listing.entries@);
        let ghost ls2 = listings@.take(b + 1);
        assert(ls2.drop_last() =~= listings@.take(b as int));
        assert(ls2.last() == *listing);
        proof {
            if seen_dir {
                if !seen_before {
                    let j = choose|j: int|
                        0 <= j < listing.entries@.len() && (#[trigger] listing.entries@[j]).is_dir && has_prefix(
                            listing.entries@[j].name@,
                            prefix@,
                        );
                    assert(ls2[b as int].entries@[j] == listing.entries@[j]);
                } else {
                    let (i, j) = choose|i: int, j: int|
                        0 <= i < b && 0 <= j < listings@.take(b as int)[i].entries@.len()
                            && (#[trigger] listings@.take(b as int)[i].entries@[j]).is_dir && has_prefix(
                            listings@.take(b as int)[i].entries@[j].name@,
                            prefix@,
                        );
                    assert(ls2[i] == listings@.take(b as int)[i]);
                }
                assert(prefix_directory(ls2, prefix@));
            } else {
                assert(!prefix_directory(ls2, prefix@)) by {
                    if prefix_directory(ls2, prefix@) {
                        let (i, j) = choose|i: int, j: int|
                            0 <= i < ls2.len() && 0 <= j < ls2[i].entries@.len()
                                && (#[trigger] ls2[i].entries@[j]).is_dir && has_prefix(ls2[i].entries@[j].name@, prefix@);
                        if i < b {
                            assert(listings@.take(b as int)[i] == ls2[i]);
                        } else {
                            assert(ls2[i] == *listing);
                        }
                    }
                }
            }
        }
        b = b + 1;
    }
    assert(listings@.take(listings@.len() as int) =~= listings@);
    let options = match typo_options {
        Some(o) => o,
        None => {
            return out;
        },
    };
    if seen_dir || !options.fuzzy_enabled {
        return out;
    }
    let ghost found = cviews(out@);
    let mut b: usize = 0;
    assert(listings@.take(0) =~= Seq::<PathListing>::empty());
    while b < listings.len()
        invariant
            b <= listings@.len(),
            p@ == prefix@,
            cviews(out@) == found + all_typo_views(listings@.take(b as int), prefix@, quote, literal_leading_tilde, options),
        decreases listings@.len() - b,
    {
        let listing = &listings[b];
        let ghost before = cviews(out@);
        let mut k: usize = 0;
        assert(listing.entries@.take(0) =~= Seq::<PathEntry>::empty());
        while k < listing.entries.len()
            invariant
                k <= listing.entries@.len(),
                b < listings@.len(),
                *listing == listings@[b as int],
                p@ == prefix@,
                cviews(out@) == before + typo_views(
                    listing.display_dir@,
                    listing.entries@.take(k as int),
                    prefix@,
                    quote,
                    literal_leading_tilde,
                    options,
                ),
            decreases listing.entries@.len() - k,
        {
            let e = &listing.entries[k];
            assert(listing.entries@.take(k + 1).drop_last() =~= listing.entries@.take(k as int));
            assert(listing.entries@.take(k + 1).last() == *e);
            if e.is_dir && !starts_with(str_chars(e.name.as_str()).as_slice(), p.as_slice())
                && directory_typo_matches(e.name.as_str(), prefix, options) {
                let c = path_candidate(listing.display_dir.as_str(), e, quote, literal_leading_tilde, true);
                let ghost mid = cviews(out@);
                out.push(c);
                assert(cviews(out@) =~= mid.push(cview(c)));
            }
            k = k + 1;
        }
        assert(listing.entries@.take(listing.entries@.len() as int) =~= listing.entries@);
        assert(listings@.take(b + 1).drop_last() =~= listings@.take(b as int));
        assert(listings@.take(b + 1).last() == *listing);
        b = b + 1;
    }
    assert(listings@.take(listings@.len() as int) =~= listings@);
    out
}

/// Directories first, then the other candidates, each in their order.
pub open spec fn dirs_first(s: Seq<CandView>) -> Seq<CandView> {
    s.filter(|v: CandView| v.3 == CompletionSource::Path && v.2) + s.filter(
        |v: CandView| !(v.3 == CompletionSource::Path && v.2),
    )
}

/// Path directories, and the rest, each in their order.
pub fn split_path_candidates(candidates: Vec<CompletionCandidate>) -> (r: (Vec<CompletionCandidate>, Vec<CompletionCandidate>))
    ensures
        cviews(r.0@) == cviews(candidates@).filter(|v: CandView| v.3 == CompletionSource::Path && v.2),
        cviews(r.1@) == cviews(candidates@).filter(|v: CandView| !(v.3 == CompletionSource::Path && v.2)),
{
    let ghost all = cviews(candidates@);
    let ghost pd = |v: CandView| v.3 == CompletionSource::Path && v.2;
    let ghost po = |v: CandView| !(v.3 == CompletionSource::Path && v.2);
    let mut dirs: Vec<CompletionCandidate> = Vec::new();
    let mut others: Vec<CompletionCandidate> = Vec::new();
    let mut i: usize = 0;
    assert(all.take(0) =~= Seq::<CandView>::empty());
    while i < candidates.len()
        invariant
            i <= candidates@.len(),
            all == cviews(candidates@),
            pd == (|v: CandView| v.3 == CompletionSource::Path && v.2),
            po == (|v: CandView| !(v.3 == CompletionSource::Path && v.2)),
            cviews(dirs@) == all.take(i as int).filter(pd),
            cviews(others@) == all.take(i as int).filter(po),
        decreases candidates@.len() - i,
    {
        let c = candidates[i].clone_candidate();
        assert(all.take(i + 1).drop_last() =~= all.take(i as int));
        assert(all.take(i + 1).last() == cview(c));
        reveal_with_fuel(Seq::filter, 1);
        if c.source == CompletionSource::Path && c.is_dir {
            let ghost before = cviews(dirs@);
            dirs.push(c);
            assert(cviews(dirs@) =~= before.push(cview(c)));
        } else {
            let ghost before = cviews(others@);
            others.push(c);
            assert(cviews(others@) =~= before.push(cview(c)));
        }
        i = i + 1;
    }
    assert(all.take(candidates@.len() as int) =~= all);
    (dirs, others)
}

/// Directories before files.
pub fn order_path_candidates_for_completion(candidates: Vec<CompletionCandidate>) -> (r: Vec<CompletionCandidate>)
    ensures
        cviews(r@) == dirs_first(cviews(candidates@)),
{
    let (mut directories, mut files) = split_path_candidates(candidates);
    let ghost d = cviews(directories@);
    directories.append(&mut files);
    assert(cviews(directories@) =~= dirs_first(cviews(candidates@)));
    directories
}


// ---------------------------------------------------------------------
// Where a completion looks
// ---------------------------------------------------------------------

/// `name` joined to `base` as `Path::join` joins them: an absolute name
/// stands for itself; else a slash between them unless `base` is empty or
/// already ends in one.
pub open spec fn path_join(base: Seq<char>, name: Seq<char>) -> Seq<char> {
    if name.len() > 0 && name[0] == '/' {
        name
    } else {
        joined(base, name)
    }
}

pub fn join_dir(base: &str, name: &str) -> (r: String)
    ensures
        r@ == path_join(base@, name@),
{
    let n = str_chars(name);
    if n.len() > 0 && n[0] == '/' {
        return chars_string(n.as_slice());
    }
    join_path(base, name)
}

pub open spec fn tilde_slash() -> Seq<char> {
    seq!['~', '/']
}

/// The directory that the directory part of a path token names: the
/// working directory for none; under the home directory for `~/` when the
/// tilde is expanded (`None` when the home directory is unknown); else the
/// part itself joined to the working directory, which keeps an absolute
/// part as it is.
pub open spec fn search_dir_for(
    dir: Seq<char>,
    cwd: Seq<char>,
    expand_home_tilde: bool,
    home: Option<Seq<char>>,
) -> Option<Seq<char>> {
    if dir.len() == 0 {
        Some(cwd)
    } else if expand_home_tilde && has_prefix(dir, tilde_slash()) {
        match home {
            Some(h) => Some(path_join(h, dir.skip(2))),
            None => None,
        }
    } else {
        Some(path_join(cwd, dir))
    }
}

fn starts_with_tilde_slash(v: &[char]) -> (r: bool)
    ensures
        r == has_prefix(v@, tilde_slash()),
{
    if v.len() >= 2 && v[0] == '~' && v[1] == '/' {
        assert(v@.take(2) =~= tilde_slash());
        true
    } else {
        proof {
            if v@.len() >= 2 {
                assert(v@.take(2)[0] == v@[0]);
                assert(v@.take(2)[1] == v@[1]);
            }
        }
        false
    }
}

/// The directory to list for the directory part of a path token; see
/// `search_dir_for`.
pub fn resolve_search_dir(dir_token: &str, cwd: &str, expand_home_tilde: bool, home: Option<&str>) -> (r: Option<String>)
    ensures
        opt_str_view(r) == search_dir_for(dir_token@, cwd@, expand_home_tilde, opt_chars(home)),
{
    let d = str_chars(dir_token);
    if d.len() == 0 {
        return Some(cwd.to_string());
    }
    if expand_home_tilde && starts_with_tilde_slash(d.as_slice()) {
        return match home {
            Some(h) => {
                let rest = chars_string(sub_chars(d.as_slice(), 2, d.len()).as_slice());
                Some(join_dir(h, rest.as_str()))
            },
            None => None,
        };
    }
    Some(join_dir(cwd, dir_token))
}

/// The place of the last `c` in `s`; -1 when there is none.
pub open spec fn last_index_of(s: Seq<char>, c: char) -> int
    decreases s.len(),
{
    if s.len() == 0 {
        -1
    } else if s.last() == c {
        s.len() - 1
    } else {
        last_index_of(s.drop_last(), c)
    }
}

proof fn lemma_last_index_of_bounds(s: Seq<char>, c: char)
    ensures
        -1 <= last_index_of(s, c) < s.len(),
    decreases s.len(),
{
    if s.len() > 0 {
        lemma_last_index_of_bounds(s.drop_last(), c);
    }
}

/// A path token's directory part, through its last slash, and the name
/// being typed after it.
pub open spec fn path_token_split(v: Seq<char>) -> (Seq<char>, Seq<char>) {
    let k = last_index_of(v, '/');
    (v.take(k + 1), v.skip(k + 1))
}

pub fn split_path_token(token: &str) -> (r: (String, String))
    ensures
        r.0@ == path_token_split(token@).0,
        r.1@ == path_token_split(token@).1,
{
    let v = str_chars(token);
    let mut j: usize = v.len();
    assert(v@.take(v@.len() as int) =~= v@);
    while j > 0 && v[j - 1] != '/'
        invariant
            j <= v@.len(),
            last_index_of(v@, '/') == last_index_of(v@.take(j as int), '/'),
        decreases j,
    {
        assert(v@.take(j as int).drop_last() =~= v@.take(j - 1));
        j = j - 1;
    }
    proof {
        if j > 0 {
            assert(v@.take(j as int).last() == '/');
        } else {
            assert(v@.take(0).len() == 0);
        }
    }
    let dir = chars_string(sub_chars(v.as_slice(), 0, j).as_slice());
    let prefix = chars_string(sub_chars(v.as_slice(), j, v.len()).as_slice());
    (dir, prefix)
}

/// What a path completion reads off the token: its opening quote, whether
/// a leading `~/` is expanded, the directory part and the name typed of
/// its shell value, and whether a leading tilde must stay literal.
#[derive(Debug, Clone)]
pub struct PathTokenParts {
    pub quote: Option<char>,
    pub home_tilde_active: bool,
    pub dir_token: String,
    pub prefix: String,
    pub literal_leading_tilde: bool,
}

pub open spec fn opening_quote(token: Seq<char>) -> Option<char> {
    if token.len() > 0 && (token[0] == '\'' || token[0] == '"') {
        Some(token[0])
    } else {
        None
    }
}

pub fn path_token_parts(token: &str) -> (r: PathTokenParts)
    ensures
        r.quote == opening_quote(token@),
        r.home_tilde_active == has_prefix(token@, tilde_slash()),
        r.dir_token@ == path_token_split(word_value(token@)).0,
        r.prefix@ == path_token_split(word_value(token@)).1,
        r.literal_leading_tilde == (has_prefix(word_value(token@), tilde_slash()) && !has_prefix(token@, tilde_slash())),
{
    let t = str_chars(token);
    let quote = if t.len() > 0 && (t[0] == '\'' || t[0] == '"') {
        Some(t[0])
    } else {
        None
    };
    let active = home_tilde_expansion_is_active(token);
    proof {
        if t@.len() >= 2 {
            assert(t@.take(2)[0] == t@[0]);
            assert(t@.take(2)[1] == t@[1]);
        }
    }
    let active2 = starts_with_tilde_slash(t.as_slice());
    let value = shell_word_value(token);
    let vv = str_chars(value.as_str());
    let literal = starts_with_tilde_slash(vv.as_slice()) && !active2;
    let (dir_token, prefix) = split_path_token(value.as_str());
    PathTokenParts { quote, home_tilde_active: active2, dir_token, prefix, literal_leading_tilde: literal }
}

/// The path completions for a token from the listings of the directories
/// it leads to: the matching entries, in path order of what they show,
/// without repeated replacements.
pub fn complete_path_in_listings(
    listings: &Vec<PathListing>,
    parts: &PathTokenParts,
    typo_options: Option<CompletionOptions>,
) -> (r: Vec<CompletionCandidate>)
    ensures
        cviews(r@) == dedup_views(
            path_sorted(
                path_candidates(listings@, parts.prefix@, parts.quote, parts.literal_leading_tilde, typo_options),
                |v: CandView| v.0,
            ),
        ),
{
    let mut c = complete_path_from_bases(
        listings,
        parts.prefix.as_str(),
        parts.quote,
        parts.literal_leading_tilde,
        typo_options,
    );
    let ghost s = c@;
    sort_path_candidates(&mut c);
    let ghost sorted = c@;
    dedupe_completion_candidates(&mut c);
    proof {
        let f = |x: CompletionCandidate| cview(x);
        let kt = |x: CompletionCandidate| x.display@;
        let ku = |v: CandView| v.0;
        assert forall|y: CompletionCandidate| #[trigger] kt(y) == ku(f(y)) by {}
        lemma_path_sorted_map(s, f, kt, ku);
        assert(cviews(s) =~= s.map_values(f));
        assert(cviews(sorted) =~= path_sorted(s, kt).map_values(f));
        lemma_dedup_views(sorted);
    }
    c
}

// ---------------------------------------------------------------------
// Completing intermediate directory components
// ---------------------------------------------------------------------

/// Where component completion starts and the components it goes through.
#[derive(Debug, Clone)]
pub struct ComponentCompletionRoot {
    pub search_dir: String,
    pub display_dir: String,
    pub components: Vec<String>,
}

pub type RootView = (Seq<char>, Seq<char>, Seq<Seq<char>>);

pub open spec fn root_view(r: ComponentCompletionRoot) -> RootView {
    (r.search_dir@, r.display_dir@, r.components@.map_values(|s: String| s@))
}

/// The start of component completion for a directory part whose own
/// directory does not exist, trailing slashes dropped: the working
/// directory with no components for nothing; the home directory, shown as
/// `~/`, for an expanded `~/` (`None` when the home directory is unknown);
/// a lone `~` as a component of the working directory; the root, shown as
/// `/`, for an absolute part; else the working directory.
pub open spec fn completion_root(
    dir: Seq<char>,
    cwd: Seq<char>,
    expand_home_tilde: bool,
    home: Option<Seq<char>>,
) -> Option<RootView> {
    let t = dir.take(dir.len() - crate::pty::filter::trail_in(dir, seq!['/']));
    if t.len() == 0 {
        Some((cwd, seq![], seq![]))
    } else if expand_home_tilde && has_prefix(t, tilde_slash()) {
        match home {
            Some(h) => Some((h, tilde_slash(), components_of(t.skip(2)))),
            None => None,
        }
    } else if t == seq!['~'] {
        Some((cwd, seq![], seq![seq!['~']]))
    } else if t[0] == '/' {
        Some((seq!['/'], seq!['/'], components_of(t.skip(1))))
    } else {
        Some((cwd, seq![], components_of(t)))
    }
}

pub fn component_completion_root(
    dir_token: &str,
    cwd: &str,
    expand_home_tilde: bool,
    home: Option<&str>,
) -> (r: Option<ComponentCompletionRoot>)
    ensures
        match completion_root(dir_token@, cwd@, expand_home_tilde, opt_chars(home)) {
            Some(v) => r matches Some(root) && root_view(root) == v,
            None => r is None,
        },
{
    let d = str_chars(dir_token);
    let mut slash: Vec<char> = Vec::new();
    slash.push('/');
    assert(slash@ =~= seq!['/']);
    let n = crate::pty::filter::trail_in_exec(d.as_slice(), slash.as_slice());
    let t = sub_chars(d.as_slice(), 0, d.len() - n);
    if t.len() == 0 {
        let none: Vec<String> = Vec::new();
        assert(none@.map_values(|s: String| s@) =~= Seq::<Seq<char>>::empty());
        return Some(ComponentCompletionRoot { search_dir: cwd.to_string(), display_dir: String::new(), components: none });
    }
    if expand_home_tilde && starts_with_tilde_slash(t.as_slice()) {
        return match home {
            Some(h) => {
                let rest = chars_string(sub_chars(t.as_slice(), 2, t.len()).as_slice());
                let components = path_components(rest.as_str());
                let mut shown = String::new();
                shown.push('~');
                shown.push('/');
                assert(shown@ =~= tilde_slash());
                Some(ComponentCompletionRoot { search_dir: h.to_string(), display_dir: shown, components })
            },
            None => None,
        };
    }
    if t.len() == 1 && t[0] == '~' {
        assert(t@ =~= seq!['~']);
        let mut tilde = String::new();
        tilde.push('~');
        let mut components: Vec<String> = Vec::new();
        components.push(tilde);
        assert(components@.map_values(|s: String| s@) =~= seq![seq!['~']]);
        return Some(ComponentCompletionRoot { search_dir: cwd.to_string(), display_dir: String::new(), components });
    }
    assert(t@ != seq!['~']) by {
        if t@ == seq!['~'] {
            assert(t@.len() == 1);
        }
    }
    if t[0] == '/' {
        let rest = chars_string(sub_chars(t.as_slice(), 1, t.len()).as_slice());
        let components = path_components(rest.as_str());
        let mut root = String::new();
        root.push('/');
        assert(root@ =~= seq!['/']);
        return Some(ComponentCompletionRoot { search_dir: root.clone(), display_dir: root, components });
    }
    let tt = chars_string(t.as_slice());
    let components = path_components(tt.as_str());
    Some(ComponentCompletionRoot { search_dir: cwd.to_string(), display_dir: String::new(), components })
}

pub type BaseView = (Seq<char>, Seq<char>);

pub open spec fn bview(b: PathCompletionBase) -> BaseView {
    (b.search_dir@, b.display_dir@)
}

pub open spec fn bviews(s: Seq<PathCompletionBase>) -> Seq<BaseView> {
    s.map_values(|b: PathCompletionBase| bview(b))
}

/// The subdirectory `name` of a base, shown with a slash after it.
pub open spec fn child_view(b: BaseView, name: Seq<char>) -> BaseView {
    (path_join(b.0, name), path_display(b.1, name, true))
}

/// The subdirectories among `es` whose names begin with `component`.
pub open spec fn prefix_children(b: BaseView, es: Seq<PathEntry>, component: Seq<char>) -> Seq<BaseView>
    decreases es.len(),
{
    if es.len() == 0 {
        seq![]
    } else {
        let r = prefix_children(b, es.drop_last(), component);
        let e = es.last();
        if e.is_dir && has_prefix(e.name@, component) {
            r.push(child_view(b, e.name@))
        } else {
            r
        }
    }
}

/// The subdirectories among `es` whose names do not begin with
/// `component` but are typos of it.
pub open spec fn typo_children(b: BaseView, es: Seq<PathEntry>, component: Seq<char>, options: CompletionOptions) -> Seq<
    BaseView,
>
    decreases es.len(),
{
    if es.len() == 0 {
        seq![]
    } else {
        let r = typo_children(b, es.drop_last(), component, options);
        let e = es.last();
        if e.is_dir && !has_prefix(e.name@, component) && directory_typo(e.name@, component, options) {
            r.push(child_view(b, e.name@))
        } else {
            r
        }
    }
}

/// The directories that one typed component leads to from a base: the
/// base itself for an empty component; the component itself when it is a
/// directory there; else the listed subdirectories it begins, or, with
/// fuzzy matching and none of those, those it is a typo of; each in path
/// order of how they are shown.
pub open spec fn intermediate_matches(
    b: BaseView,
    component: Seq<char>,
    exact_is_dir: bool,
    es: Seq<PathEntry>,
    options: CompletionOptions,
) -> Seq<BaseView> {
    if component.len() == 0 {
        seq![b]
    } else if exact_is_dir {
        seq![child_view(b, component)]
    } else {
        let found = prefix_children(b, es, component);
        if found.len() > 0 || !options.fuzzy_enabled {
            path_sorted(found, |v: BaseView| v.1)
        } else {
            path_sorted(typo_children(b, es, component, options), |v: BaseView| v.1)
        }
    }
}

fn copy_base(b: &PathCompletionBase) -> (r: PathCompletionBase)
    ensures
        bview(r) == bview(*b),
{
    PathCompletionBase { search_dir: b.search_dir.clone(), display_dir: b.display_dir.clone() }
}

fn child_base(b: &PathCompletionBase, name: &str) -> (r: PathCompletionBase)
    ensures
        bview(r) == child_view(bview(*b), name@),
{
    PathCompletionBase {
        search_dir: join_dir(b.search_dir.as_str(), name),
        display_dir: format_path_display(b.display_dir.as_str(), name, true),
    }
}

/// Sorts bases in path order, as their views.
fn sorted_bases(v: Vec<PathCompletionBase>) -> (r: Vec<PathCompletionBase>)
    ensures
        bviews(r@) == path_sorted(bviews(v@), |x: BaseView| x.1),
{
    let mut v = v;
    let ghost s = v@;
    sort_path_completion_bases(&mut v);
    proof {
        let f = |b: PathCompletionBase| bview(b);
        let kt = |b: PathCompletionBase| b.display_dir@;
        let ku = |x: BaseView| x.1;
        assert forall|y: PathCompletionBase| #[trigger] kt(y) == ku(f(y)) by {}
        lemma_path_sorted_map(s, f, kt, ku);
        assert(bviews(s) =~= s.map_values(f));
        assert(bviews(v@) =~= path_sorted(s, kt).map_values(f));
    }
    v
}

/// The directories one typed component leads to from `base`; see
/// `intermediate_matches`. `exact_is_dir` says whether the component names
/// a directory in the base, and `entries` lists the base.
pub fn intermediate_directory_matches(
    base: &PathCompletionBase,
    component: &str,
    exact_is_dir: bool,
    entries: &Vec<PathEntry>,
    options: CompletionOptions,
) -> (r: Vec<PathCompletionBase>)
    ensures
        bviews(r@) == intermediate_matches(bview(*base), component@, exact_is_dir, entries@, options),
{
    let c = str_chars(component);
    if c.len() == 0 {
        let mut one: Vec<PathCompletionBase> = Vec::new();
        one.push(copy_base(base));
        assert(bviews(one@) =~= seq![bview(*base)]);
        return one;
    }
    if exact_is_dir {
        let mut one: Vec<PathCompletionBase> = Vec::new();
        one.push(child_base(base, component));
        assert(bviews(one@) =~= seq![child_view(bview(*base), component@)]);
        return one;
    }
    let ghost b = bview(*base);
    let mut found: Vec<PathCompletionBase> = Vec::new();
    let mut k: usize = 0;
    while k < entries.len()
        invariant
            k <= entries@.len(),
            c@ == component@,
            b == bview(*base),
            bviews(found@) == prefix_children(b, entries@.take(k as int), component@),
        decreases entries.len() - k,
    {
        let e = &entries[k];
        assert(entries@.take(k + 1).drop_last() =~= entries@.take(k as int));
        let ghost before = bviews(found@);
        if e.is_dir && starts_with(str_chars(e.name.as_str()).as_slice(), c.as_slice()) {
            found.push(child_base(base, e.name.as_str()));
            assert(bviews(found@) =~= before.push(child_view(b, e.name@)));
        }
        k = k + 1;
    }
    assert(entries@.take(entries@.len() as int) =~= entries@);
    if found.len() > 0 || !options.fuzzy_enabled {
        return sorted_bases(found);
    }
    let mut typos: Vec<PathCompletionBase> = Vec::new();
    let mut k: usize = 0;
    while k < entries.len()
        invariant
            k <= entries@.len(),
            c@ == component@,
            b == bview(*base),
            bviews(typos@) == typo_children(b, entries@.take(k as int), component@, options),
        decreases entries.len() - k,
    {
        let e = &entries[k];
        assert(entries@.take(k + 1).drop_last() =~= entries@.take(k as int));
        let ghost before = bviews(typos@);
        if e.is_dir && !starts_with(str_chars(e.name.as_str()).as_slice(), c.as_slice())
            && directory_typo_matches(e.name.as_str(), component, options) {
            typos.push(child_base(base, e.name.as_str()));
            assert(bviews(typos@) =~= before.push(child_view(b, e.name@)));
        }
        k = k + 1;
    }
    sorted_bases(typos)
}

/// The most directories that component completion carries to the next
/// component.
pub const PATH_COMPLETION_MAX_COMPONENT_BASES: usize = 32;

/// The directories gathered base by base: once they reach the limit, the
/// matches of later bases are not taken.
pub open spec fn gathered(f: Seq<Seq<BaseView>>) -> Seq<BaseView>
    decreases f.len(),
{
    if f.len() == 0 {
        seq![]
    } else {
        let g = gathered(f.drop_last());
        if g.len() >= PATH_COMPLETION_MAX_COMPONENT_BASES {
            g
        } else {
            g + f.last()
        }
    }
}

/// The directories without those that occurred before.
pub open spec fn dedup_bases(s: Seq<BaseView>) -> Seq<BaseView>
    decreases s.len(),
{
    if s.len() == 0 {
        seq![]
    } else {
        let d = dedup_bases(s.drop_last());
        if s.drop_last().contains(s.last()) {
            d
        } else {
            d.push(s.last())
        }
    }
}

/// The directories the next component starts from: the matches of each
/// base gathered, repeats dropped, and at most the limit of them kept.
pub open spec fn next_bases(f: Seq<Seq<BaseView>>) -> Seq<BaseView> {
    let d = dedup_bases(gathered(f));
    if d.len() <= PATH_COMPLETION_MAX_COMPONENT_BASES {
        d
    } else {
        d.take(PATH_COMPLETION_MAX_COMPONENT_BASES as int)
    }
}

proof fn lemma_gathered_stays(f: Seq<Seq<BaseView>>, i: int)
    requires
        0 <= i <= f.len(),
        gathered(f.take(i)).len() >= PATH_COMPLETION_MAX_COMPONENT_BASES,
    ensures
        gathered(f) == gathered(f.take(i)),
    decreases f.len(),
{
    if f.len() > i {
        assert(f.drop_last().take(i) =~= f.take(i));
        lemma_gathered_stays(f.drop_last(), i);
    } else {
        assert(f.take(i) =~= f);
    }
}

fn same_base(a: &PathCompletionBase, b: &PathCompletionBase) -> (r: bool)
    ensures
        r == (bview(*a) == bview(*b)),
{
    crate::text::chars_eq(str_chars(a.search_dir.as_str()).as_slice(), str_chars(b.search_dir.as_str()).as_slice())
        && crate::text::chars_eq(str_chars(a.display_dir.as_str()).as_slice(), str_chars(b.display_dir.as_str()).as_slice())
}

fn gather_bases(found: &Vec<Vec<PathCompletionBase>>) -> (r: Vec<PathCompletionBase>)
    ensures
        bviews(r@) == gathered(found@.map_values(|v: Vec<PathCompletionBase>| bviews(v@))),
{
    let ghost fv = found@.map_values(|v: Vec<PathCompletionBase>| bviews(v@));
    let mut next: Vec<PathCompletionBase> = Vec::new();
    let mut i: usize = 0;
    assert(fv.take(0) =~= Seq::<Seq<BaseView>>::empty());
    while i < found.len() && next.len() < PATH_COMPLETION_MAX_COMPONENT_BASES
        invariant
            i <= found@.len(),
            fv == found@.map_values(|v: Vec<PathCompletionBase>| bviews(v@)),
            bviews(next@) == gathered(fv.take(i as int)),
        decreases found.len() - i,
    {
        let batch = &found[i];
        let ghost g = bviews(next@);
        let mut k: usize = 0;
        assert(bviews(batch@).take(0) =~= Seq::<BaseView>::empty());
        assert(g + Seq::<BaseView>::empty() =~= g);
        while k < batch.len()
            invariant
                k <= batch@.len(),
                bviews(next@) == g + bviews(batch@).take(k as int),
            decreases batch.len() - k,
        {
            let ghost before = next@;
            let c = copy_base(&batch[k]);
            next.push(c);
            proof {
                assert(next@ == before.push(c));
                assert(bviews(next@) =~= bviews(before).push(bview(c)));
                assert(bviews(batch@)[k as int] == bview(batch@[k as int]));
                assert(bviews(batch@).take(k + 1) =~= bviews(batch@).take(k as int).push(bview(c)));
            }
            k = k + 1;
        }
        assert(fv.take(i + 1).drop_last() =~= fv.take(i as int));
        assert(fv[i as int] == bviews(batch@));
        assert(bviews(batch@).take(batch@.len() as int) =~= bviews(batch@));
        i = i + 1;
    }
    proof {
        if i < found@.len() {
            lemma_gathered_stays(fv, i as int);
        } else {
            assert(fv.take(i as int) =~= fv);
        }
    }
    next
}

fn dedup_base_list(next: &Vec<PathCompletionBase>) -> (r: Vec<PathCompletionBase>)
    ensures
        bviews(r@) == dedup_bases(bviews(next@)),
{
    let ghost gs = bviews(next@);
    let mut out: Vec<PathCompletionBase> = Vec::new();
    let mut k: usize = 0;
    assert(gs.take(0) =~= Seq::<BaseView>::empty());
    while k < next.len()
        invariant
            k <= next@.len(),
            gs == bviews(next@),
            bviews(out@) == dedup_bases(gs.take(k as int)),
        decreases next.len() - k,
    {
        let mut j: usize = 0;
        let mut seen = false;
        assert(gs.take(0) =~= Seq::<BaseView>::empty());
        while j < k
            invariant
                j <= k < next@.len(),
                gs == bviews(next@),
                seen == gs.take(j as int).contains(gs[k as int]),
            decreases k - j,
        {
            let same = same_base(&next[j], &next[k]);
            proof {
                assert(gs.take(j + 1) =~= gs.take(j as int).push(gs[j as int]));
                assert(gs[j as int] == bview(next@[j as int]));
                assert(gs[k as int] == bview(next@[k as int]));
                if gs.take(j + 1).contains(gs[k as int]) && !gs.take(j as int).contains(gs[k as int]) {
                    let w = choose|w: int| 0 <= w < j + 1 && #[trigger] gs.take(j + 1)[w] == gs[k as int];
                    assert(w == j);
                }
                if gs.take(j as int).contains(gs[k as int]) {
                    let w = choose|w: int| 0 <= w < j && #[trigger] gs.take(j as int)[w] == gs[k as int];
                    assert(gs.take(j + 1)[w] == gs[k as int]);
                }
                if same {
                    assert(gs.take(j + 1)[j as int] == gs[k as int]);
                }
            }
            if same {
                seen = true;
            }
            j = j + 1;
        }
        assert(gs.take(k + 1).drop_last() =~= gs.take(k as int));
        assert(gs.take(k + 1).last() == gs[k as int]);
        if !seen {
            let ghost before = out@;
            let c = copy_base(&next[k]);
            out.push(c);
            assert(gs[k as int] == bview(next@[k as int]));
            assert(bviews(out@) =~= bviews(before).push(gs[k as int]));
        }
        k = k + 1;
    }
    assert(gs.take(next@.len() as int) =~= gs);
    out
}

/// The directories the next component starts from, given the matches of
/// each current base in order; see `next_bases`.
pub fn next_component_bases(found: &Vec<Vec<PathCompletionBase>>) -> (r: Vec<PathCompletionBase>)
    ensures
        bviews(r@) == next_bases(found@.map_values(|v: Vec<PathCompletionBase>| bviews(v@))),
{
    let next = gather_bases(found);
    let mut out = dedup_base_list(&next);
    if out.len() > PATH_COMPLETION_MAX_COMPONENT_BASES {
        let ghost before = out@;
        out.truncate(PATH_COMPLETION_MAX_COMPONENT_BASES);
        assert(bviews(out@) =~= bviews(before).take(PATH_COMPLETION_MAX_COMPONENT_BASES as int));
    }
    out
}

} // verus!
