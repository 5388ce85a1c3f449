//! The orders of completion texts: path completions with visible names
//! before hidden ones, then in character order; executable names in
//! character order. Both are kept by a stable insertion sort.
use vstd::prelude::*;
use crate::text::str_chars;
use super::path::{path_hidden, path_text_is_hidden, PathCompletionBase, PathEntry};
use super::types::CompletionCandidate;

verus! {

broadcast use vstd::string::group_string_axioms;

/// `a` comes before `b` in character order from position `i` on: at the
/// first place where they differ its character is smaller, or it ends
/// first.
pub open spec fn chars_lt_from(a: Seq<char>, b: Seq<char>, i: int) -> bool
    decreases a.len() - i,
{
    if i >= a.len() {
        i < b.len()
    } else if i >= b.len() {
        false
    } else if a[i] != b[i] {
        (a[i] as u32) < (b[i] as u32)
    } else {
        chars_lt_from(a, b, i + 1)
    }
}

/// `a` comes before `b` in character order.
pub open spec fn chars_lt(a: Seq<char>, b: Seq<char>) -> bool {
    chars_lt_from(a, b, 0)
}

/// `a` comes before `b` among path completions: a visible path before a
/// hidden one, else in character order.
pub open spec fn path_key_lt(a: Seq<char>, b: Seq<char>) -> bool {
    (!path_hidden(a) && path_hidden(b)) || (path_hidden(a) == path_hidden(b) && chars_lt(a, b))
}

proof fn lemma_chars_lt_from_irreflexive(a: Seq<char>, i: int)
    requires
        0 <= i,
    ensures
        !chars_lt_from(a, a, i),
    decreases a.len() - i,
{
    if i < a.len() {
        lemma_chars_lt_from_irreflexive(a, i + 1);
    }
}

proof fn lemma_chars_lt_from_transitive(a: Seq<char>, b: Seq<char>, c: Seq<char>, i: int)
    requires
        0 <= i,
        chars_lt_from(a, b, i),
        chars_lt_from(b, c, i),
    ensures
        chars_lt_from(a, c, i),
    decreases a.len() - i,
{
    if i < a.len() && i < b.len() && i < c.len() && a[i] == b[i] && b[i] == c[i] {
        lemma_chars_lt_from_transitive(a, b, c, i + 1);
    }
}

/// The path order is strict: nothing comes before itself.
pub proof fn lemma_path_key_lt_irreflexive(a: Seq<char>)
    ensures
        !path_key_lt(a, a),
{
    lemma_chars_lt_from_irreflexive(a, 0);
}

/// The path order is transitive.
pub proof fn lemma_path_key_lt_transitive(a: Seq<char>, b: Seq<char>, c: Seq<char>)
    requires
        path_key_lt(a, b),
        path_key_lt(b, c),
    ensures
        path_key_lt(a, c),
{
    if path_hidden(a) == path_hidden(b) && path_hidden(b) == path_hidden(c) {
        lemma_chars_lt_from_transitive(a, b, c, 0);
    }
}

/// `lt` is a strict order: nothing precedes itself, and precedence is
/// transitive.
pub open spec fn strict_order(lt: spec_fn(Seq<char>, Seq<char>) -> bool) -> bool {
    &&& forall|a: Seq<char>| !#[trigger] lt(a, a)
    &&& forall|a: Seq<char>, b: Seq<char>, c: Seq<char>| #[trigger] lt(a, b) && #[trigger] lt(b, c) ==> lt(a, c)
}

/// The path order as a relation.
pub open spec fn path_order() -> spec_fn(Seq<char>, Seq<char>) -> bool {
    |a: Seq<char>, b: Seq<char>| path_key_lt(a, b)
}

/// Character order as a relation.
pub open spec fn text_order() -> spec_fn(Seq<char>, Seq<char>) -> bool {
    |a: Seq<char>, b: Seq<char>| chars_lt(a, b)
}

/// Character order is strict.
pub proof fn lemma_text_order_strict()
    ensures
        strict_order(text_order()),
{
    assert forall|a: Seq<char>| !#[trigger] text_order()(a, a) by {
        lemma_chars_lt_from_irreflexive(a, 0);
    }
    assert forall|a: Seq<char>, b: Seq<char>, c: Seq<char>|
        #[trigger] text_order()(a, b) && #[trigger] text_order()(b, c) implies text_order()(a, c) by {
        lemma_chars_lt_from_transitive(a, b, c, 0);
    }
}

/// The path order is strict.
pub proof fn lemma_path_order_strict()
    ensures
        strict_order(path_order()),
{
    assert forall|a: Seq<char>| !#[trigger] path_order()(a, a) by {
        lemma_path_key_lt_irreflexive(a);
    }
    assert forall|a: Seq<char>, b: Seq<char>, c: Seq<char>|
        #[trigger] path_order()(a, b) && #[trigger] path_order()(b, c) implies path_order()(a, c) by {
        lemma_path_key_lt_transitive(a, b, c);
    }
}

/// The first place from `i` on whose item should follow `x`; the length
/// when there is none.
pub open spec fn first_greater<T>(
    s: Seq<T>,
    x: T,
    key: spec_fn(T) -> Seq<char>,
    lt: spec_fn(Seq<char>, Seq<char>) -> bool,
    i: int,
) -> int
    decreases s.len() - i,
{
    if i >= s.len() {
        s.len() as int
    } else if lt(key(x), key(s[i])) {
        i
    } else {
        first_greater(s, x, key, lt, i + 1)
    }
}

/// `x` put into `s` after every item that need not follow it.
pub open spec fn insert_in_order<T>(
    s: Seq<T>,
    x: T,
    key: spec_fn(T) -> Seq<char>,
    lt: spec_fn(Seq<char>, Seq<char>) -> bool,
) -> Seq<T> {
    s.insert(first_greater(s, x, key, lt, 0), x)
}

/// The items of `s` in the order `lt` of their keys; items whose keys are
/// in no order keep the order they had.
pub open spec fn sorted_by<T>(s: Seq<T>, key: spec_fn(T) -> Seq<char>, lt: spec_fn(Seq<char>, Seq<char>) -> bool) -> Seq<T>
    decreases s.len(),
{
    if s.len() == 0 {
        s
    } else {
        insert_in_order(sorted_by(s.drop_last(), key, lt), s.last(), key, lt)
    }
}

/// The items of `s` in path order of their keys.
pub open spec fn path_sorted<T>(s: Seq<T>, key: spec_fn(T) -> Seq<char>) -> Seq<T> {
    sorted_by(s, key, path_order())
}

/// The items of `s` in character order of their keys.
pub open spec fn text_sorted<T>(s: Seq<T>, key: spec_fn(T) -> Seq<char>) -> Seq<T> {
    sorted_by(s, key, text_order())
}

/// No item of `s` comes after one that should follow it.
pub open spec fn in_order<T>(s: Seq<T>, key: spec_fn(T) -> Seq<char>, lt: spec_fn(Seq<char>, Seq<char>) -> bool) -> bool {
    forall|i: int, j: int| 0 <= i < j < s.len() ==> !lt(#[trigger] key(s[j]), #[trigger] key(s[i]))
}

proof fn lemma_first_greater<T>(
    s: Seq<T>,
    x: T,
    key: spec_fn(T) -> Seq<char>,
    lt: spec_fn(Seq<char>, Seq<char>) -> bool,
    i: int,
)
    requires
        0 <= i <= s.len(),
    ensures
        i <= first_greater(s, x, key, lt, i) <= s.len(),
        forall|j: int| i <= j < first_greater(s, x, key, lt, i) ==> !lt(key(x), #[trigger] key(s[j])),
        first_greater(s, x, key, lt, i) < s.len() ==> lt(key(x), key(s[first_greater(s, x, key, lt, i)])),
    decreases s.len() - i,
{
    if i < s.len() && !lt(key(x), key(s[i])) {
        lemma_first_greater(s, x, key, lt, i + 1);
    }
}

proof fn lemma_insert_keeps_order<T>(
    s: Seq<T>,
    x: T,
    key: spec_fn(T) -> Seq<char>,
    lt: spec_fn(Seq<char>, Seq<char>) -> bool,
)
    requires
        strict_order(lt),
        in_order(s, key, lt),
    ensures
        in_order(insert_in_order(s, x, key, lt), key, lt),
        insert_in_order(s, x, key, lt).len() == s.len() + 1,
{
    lemma_first_greater(s, x, key, lt, 0);
    let p = first_greater(s, x, key, lt, 0);
    let r = s.insert(p, x);
    assert forall|i: int, j: int| 0 <= i < j < r.len() implies !lt(#[trigger] key(r[j]), #[trigger] key(r[i])) by {
        if i == p {
            let k = j - 1;
            assert(r[j] == s[k]);
            if lt(key(s[k]), key(x)) {
                assert(lt(key(s[k]), key(s[p])));
                if k == p {
                    assert(!lt(key(s[p]), key(s[p])));
                } else {
                    assert(!lt(key(s[k]), key(s[p])));
                }
            }
        } else if j == p {
            assert(r[i] == s[i]);
        } else {
            let ii = if i < p { i } else { i - 1 };
            let jj = if j < p { j } else { j - 1 };
            assert(r[i] == s[ii]);
            assert(r[j] == s[jj]);
        }
    }
}

/// Sorting by a strict order puts the items in that order.
pub proof fn sort_is_ordered<T>(s: Seq<T>, key: spec_fn(T) -> Seq<char>, lt: spec_fn(Seq<char>, Seq<char>) -> bool)
    requires
        strict_order(lt),
    ensures
        in_order(sorted_by(s, key, lt), key, lt),
        sorted_by(s, key, lt).len() == s.len(),
    decreases s.len(),
{
    if s.len() > 0 {
        sort_is_ordered(s.drop_last(), key, lt);
        lemma_insert_keeps_order(sorted_by(s.drop_last(), key, lt), s.last(), key, lt);
    }
}

/// Sorting keeps the items: each occurs as often as in the input.
pub proof fn sort_is_permutation<T>(s: Seq<T>, key: spec_fn(T) -> Seq<char>, lt: spec_fn(Seq<char>, Seq<char>) -> bool)
    ensures
        sorted_by(s, key, lt).to_multiset() == s.to_multiset(),
        sorted_by(s, key, lt).len() == s.len(),
    decreases s.len(),
{
    broadcast use vstd::seq_lib::to_multiset_insert, vstd::seq_lib::to_multiset_build;

    if s.len() > 0 {
        sort_is_permutation(s.drop_last(), key, lt);
        let r = sorted_by(s.drop_last(), key, lt);
        lemma_first_greater(r, s.last(), key, lt, 0);
        assert(s.drop_last().push(s.last()) =~= s);
    }
}

/// Sorting puts path completions in path order: no item comes after one
/// that should follow it.
pub proof fn path_sort_is_ordered<T>(s: Seq<T>, key: spec_fn(T) -> Seq<char>)
    ensures
        in_order(path_sorted(s, key), key, path_order()),
        path_sorted(s, key).len() == s.len(),
{
    lemma_path_order_strict();
    sort_is_ordered(s, key, path_order());
}

/// Sorting path completions keeps them: each occurs as often as before.
pub proof fn path_sort_is_permutation<T>(s: Seq<T>, key: spec_fn(T) -> Seq<char>)
    ensures
        path_sorted(s, key).to_multiset() == s.to_multiset(),
{
    sort_is_permutation(s, key, path_order());
}

/// Sorting names puts them in character order.
pub proof fn text_sort_is_ordered<T>(s: Seq<T>, key: spec_fn(T) -> Seq<char>)
    ensures
        in_order(text_sorted(s, key), key, text_order()),
        text_sorted(s, key).len() == s.len(),
{
    lemma_text_order_strict();
    sort_is_ordered(s, key, text_order());
}

/// Sorting names keeps them: each occurs as often as before.
pub proof fn text_sort_is_permutation<T>(s: Seq<T>, key: spec_fn(T) -> Seq<char>)
    ensures
        text_sorted(s, key).to_multiset() == s.to_multiset(),
{
    sort_is_permutation(s, key, text_order());
}

proof fn lemma_first_greater_map<T, U>(
    s: Seq<T>,
    x: T,
    f: spec_fn(T) -> U,
    kt: spec_fn(T) -> Seq<char>,
    ku: spec_fn(U) -> Seq<char>,
    lt: spec_fn(Seq<char>, Seq<char>) -> bool,
    i: int,
)
    requires
        0 <= i,
        forall|y: T| #[trigger] kt(y) == ku(f(y)),
    ensures
        first_greater(s, x, kt, lt, i) == first_greater(s.map_values(f), f(x), ku, lt, i),
    decreases s.len() - i,
{
    if i < s.len() {
        assert(s.map_values(f)[i] == f(s[i]));
        lemma_first_greater_map(s, x, f, kt, ku, lt, i + 1);
    }
}

/// Sorting commutes with a map that keeps the keys: sorting the mapped
/// items gives the sorted items mapped.
pub proof fn lemma_sorted_by_map<T, U>(
    s: Seq<T>,
    f: spec_fn(T) -> U,
    kt: spec_fn(T) -> Seq<char>,
    ku: spec_fn(U) -> Seq<char>,
    lt: spec_fn(Seq<char>, Seq<char>) -> bool,
)
    requires
        forall|y: T| #[trigger] kt(y) == ku(f(y)),
    ensures
        sorted_by(s, kt, lt).map_values(f) == sorted_by(s.map_values(f), ku, lt),
    decreases s.len(),
{
    if s.len() > 0 {
        lemma_sorted_by_map(s.drop_last(), f, kt, ku, lt);
        let r = sorted_by(s.drop_last(), kt, lt);
        sort_is_permutation(s.drop_last(), kt, lt);
        lemma_first_greater(r, s.last(), kt, lt, 0);
        lemma_first_greater_map(r, s.last(), f, kt, ku, lt, 0);
        let p = first_greater(r, s.last(), kt, lt, 0);
        assert(s.map_values(f).drop_last() =~= s.drop_last().map_values(f));
        assert(s.map_values(f).last() == f(s.last()));
        assert(r.insert(p, s.last()).map_values(f) =~= r.map_values(f).insert(p, f(s.last())));
    }
}

/// `lemma_sorted_by_map` for the path order.
pub proof fn lemma_path_sorted_map<T, U>(
    s: Seq<T>,
    f: spec_fn(T) -> U,
    kt: spec_fn(T) -> Seq<char>,
    ku: spec_fn(U) -> Seq<char>,
)
    requires
        forall|y: T| #[trigger] kt(y) == ku(f(y)),
    ensures
        path_sorted(s, kt).map_values(f) == path_sorted(s.map_values(f), ku),
{
    lemma_sorted_by_map(s, f, kt, ku, path_order());
}

/// Whether `a` comes before `b` in character order.
pub fn chars_less(a: &[char], b: &[char]) -> (r: bool)
    ensures
        r == chars_lt(a@, b@),
{
    let mut i: usize = 0;
    while i < a.len() && i < b.len() && a[i] == b[i]
        invariant
            i <= a@.len(),
            i <= b@.len(),
            chars_lt_from(a@, b@, 0) == chars_lt_from(a@, b@, i as int),
        decreases a.len() - i,
    {
        i = i + 1;
    }
    if i >= a.len() {
        i < b.len()
    } else if i >= b.len() {
        false
    } else {
        (a[i] as u32) < (b[i] as u32)
    }
}

/// Whether the path `a` comes before `b` among completions.
pub fn path_key_less(a: &str, b: &str) -> (r: bool)
    ensures
        r == path_key_lt(a@, b@),
{
    let ha = path_text_is_hidden(a);
    let hb = path_text_is_hidden(b);
    if ha != hb {
        !ha
    } else {
        let av = str_chars(a);
        let bv = str_chars(b);
        chars_less(av.as_slice(), bv.as_slice())
    }
}

/// Puts path candidates in path order of what they show: visible entries
/// first, then by the shown text; equal texts keep their order.
pub fn sort_path_candidates(candidates: &mut Vec<CompletionCandidate>)
    ensures
        final(candidates)@ == path_sorted(old(candidates)@, |c: CompletionCandidate| c.display@),
{
    let ghost key = |c: CompletionCandidate| c.display@;
    let ghost s = candidates@;
    let mut rest: Vec<CompletionCandidate> = Vec::new();
    std::mem::swap(candidates, &mut rest);
    let mut out: Vec<CompletionCandidate> = Vec::new();
    let ghost mut done: int = 0;
    assert(s.take(0) =~= Seq::<CompletionCandidate>::empty());
    while rest.len() > 0
        invariant
            0 <= done <= s.len(),
            rest@ == s.skip(done),
            out@ == path_sorted(s.take(done), key),
            key == (|c: CompletionCandidate| c.display@),
        decreases rest.len(),
    {
        let x = rest.remove(0);
        let mut p: usize = 0;
        while p < out.len() && !path_key_less(x.display.as_str(), out[p].display.as_str())
            invariant
                p <= out@.len(),
                first_greater(out@, x, key, path_order(), 0) == first_greater(out@, x, key, path_order(), p as int),
                key == (|c: CompletionCandidate| c.display@),
            decreases out.len() - p,
        {
            p = p + 1;
        }
        proof {
            assert(s.take(done + 1).drop_last() =~= s.take(done));
            assert(s.take(done + 1).last() == x);
            assert(s.skip(done).drop_first() =~= s.skip(done + 1));
        }
        out.insert(p, x);
        proof {
            done = done + 1;
        }
    }
    proof {
        assert(s.take(done) =~= s);
    }
    *candidates = out;
}

/// Puts directories to complete in path order of how they are shown:
/// visible ones first, then by the shown text; equal texts keep their
/// order.
pub fn sort_path_completion_bases(bases: &mut Vec<PathCompletionBase>)
    ensures
        final(bases)@ == path_sorted(old(bases)@, |b: PathCompletionBase| b.display_dir@),
{
    let ghost key = |b: PathCompletionBase| b.display_dir@;
    let ghost s = bases@;
    let mut rest: Vec<PathCompletionBase> = Vec::new();
    std::mem::swap(bases, &mut rest);
    let mut out: Vec<PathCompletionBase> = Vec::new();
    let ghost mut done: int = 0;
    assert(s.take(0) =~= Seq::<PathCompletionBase>::empty());
    while rest.len() > 0
        invariant
            0 <= done <= s.len(),
            rest@ == s.skip(done),
            out@ == path_sorted(s.take(done), key),
            key == (|b: PathCompletionBase| b.display_dir@),
        decreases rest.len(),
    {
        let x = rest.remove(0);
        let mut p: usize = 0;
        while p < out.len() && !path_key_less(x.display_dir.as_str(), out[p].display_dir.as_str())
            invariant
                p <= out@.len(),
                first_greater(out@, x, key, path_order(), 0) == first_greater(out@, x, key, path_order(), p as int),
                key == (|b: PathCompletionBase| b.display_dir@),
            decreases out.len() - p,
        {
            p = p + 1;
        }
        proof {
            assert(s.take(done + 1).drop_last() =~= s.take(done));
            assert(s.take(done + 1).last() == x);
            assert(s.skip(done).drop_first() =~= s.skip(done + 1));
        }
        out.insert(p, x);
        proof {
            done = done + 1;
        }
    }
    proof {
        assert(s.take(done) =~= s);
    }
    *bases = out;
}


/// Puts names in character order; equal names keep their order.
pub fn sort_names(names: &mut Vec<String>)
    ensures
        final(names)@ == text_sorted(old(names)@, |n: String| n@),
{
    let ghost key = |n: String| n@;
    let ghost s = names@;
    let mut rest: Vec<String> = Vec::new();
    std::mem::swap(names, &mut rest);
    let mut out: Vec<String> = Vec::new();
    let ghost mut done: int = 0;
    assert(s.take(0) =~= Seq::<String>::empty());
    while rest.len() > 0
        invariant
            0 <= done <= s.len(),
            rest@ == s.skip(done),
            out@ == text_sorted(s.take(done), key),
            key == (|n: String| n@),
        decreases rest.len(),
    {
        let x = rest.remove(0);
        let xv = str_chars(x.as_str());
        let mut p: usize = 0;
        while p < out.len() && !chars_less(xv.as_slice(), str_chars(out[p].as_str()).as_slice())
            invariant
                p <= out@.len(),
                xv@ == x@,
                first_greater(out@, x, key, text_order(), 0) == first_greater(out@, x, key, text_order(), p as int),
                key == (|n: String| n@),
            decreases out.len() - p,
        {
            p = p + 1;
        }
        proof {
            assert(s.take(done + 1).drop_last() =~= s.take(done));
            assert(s.take(done + 1).last() == x);
            assert(s.skip(done).drop_first() =~= s.skip(done + 1));
        }
        out.insert(p, x);
        proof {
            done = done + 1;
        }
    }
    proof {
        assert(s.take(done) =~= s);
    }
    *names = out;
}

/// The names among `entries` that are executable where they first occur,
/// in the order of those first occurrences.
pub open spec fn first_executables(entries: Seq<(Seq<char>, bool)>) -> Seq<Seq<char>>
    decreases entries.len(),
{
    if entries.len() == 0 {
        seq![]
    } else {
        let front = entries.drop_last();
        let (name, executable) = entries.last();
        if executable && !(exists|k: int| 0 <= k < front.len() && (#[trigger] front[k]).0 == name) {
            first_executables(front).push(name)
        } else {
            first_executables(front)
        }
    }
}

pub open spec fn entry_views(entries: Seq<(String, bool)>) -> Seq<(Seq<char>, bool)> {
    entries.map_values(|e: (String, bool)| (e.0@, e.1))
}

/// The executables found on the `PATH`, from its directories' entries in
/// order with whether each is an executable file: a name counts where it
/// first occurs, and the names come in character order.
pub fn executable_names(entries: &Vec<(String, bool)>) -> (r: Vec<String>)
    ensures
        r@.map_values(|n: String| n@) == text_sorted(first_executables(entry_views(entries@)), |n: Seq<char>| n),
{
    let ghost ev = entry_views(entries@);
    let mut names: Vec<String> = Vec::new();
    let mut i: usize = 0;
    assert(ev.take(0) =~= Seq::<(Seq<char>, bool)>::empty());
    while i < entries.len()
        invariant
            i <= entries@.len(),
            ev == entry_views(entries@),
            names@.map_values(|n: String| n@) == first_executables(ev.take(i as int)),
        decreases entries.len() - i,
    {
        let name = str_chars(entries[i].0.as_str());
        let mut j: usize = 0;
        let mut seen = false;
        while j < i
            invariant
                j <= i < entries@.len(),
                ev == entry_views(entries@),
                name@ == ev[i as int].0,
                seen == (exists|k: int| 0 <= k < j && (#[trigger] ev[k]).0 == name@),
            decreases i - j,
        {
            if crate::text::chars_eq(str_chars(entries[j].0.as_str()).as_slice(), name.as_slice()) {
                seen = true;
            }
            proof {
                assert(ev[j as int].0 == entries@[j as int].0@);
            }
            j = j + 1;
        }
        let ghost front = ev.take(i as int);
        proof {
            assert(ev.take(i + 1).drop_last() =~= front);
            assert(ev.take(i + 1).last() == ev[i as int]);
            assert(seen == (exists|k: int| 0 <= k < front.len() && (#[trigger] front[k]).0 == name@)) by {
                if seen {
                    let k = choose|k: int| 0 <= k < i && (#[trigger] ev[k]).0 == name@;
                    assert(front[k] == ev[k]);
                }
                if exists|k: int| 0 <= k < front.len() && (#[trigger] front[k]).0 == name@ {
                    let k = choose|k: int| 0 <= k < front.len() && (#[trigger] front[k]).0 == name@;
                    assert(front[k] == ev[k]);
                }
            }
        }
        if entries[i].1 && !seen {
            let ghost before = names@.map_values(|n: String| n@);
            names.push(entries[i].0.clone());
            assert(names@.map_values(|n: String| n@) =~= before.push(ev[i as int].0));
        }
        i = i + 1;
    }
    assert(ev.take(ev.len() as int) =~= ev);
    let ghost unsorted = names@;
    sort_names(&mut names);
    proof {
        let f = |n: String| n@;
        let kt = |n: String| n@;
        let ku = |n: Seq<char>| n;
        assert forall|y: String| #[trigger] kt(y) == ku(f(y)) by {}
        lemma_sorted_by_map(unsorted, f, kt, ku, text_order());
        assert(unsorted.map_values(|n: String| n@) =~= unsorted.map_values(f));
        assert(names@.map_values(|n: String| n@) =~= sorted_by(unsorted, kt, text_order()).map_values(f));
    }
    names
}


/// Puts directory entries in character order of their names, as a
/// listing is read; equal names keep their order.
pub fn sort_path_entries(entries: &mut Vec<PathEntry>)
    ensures
        final(entries)@ == text_sorted(old(entries)@, |e: PathEntry| e.name@),
{
    let ghost key = |e: PathEntry| e.name@;
    let ghost s = entries@;
    let mut rest: Vec<PathEntry> = Vec::new();
    std::mem::swap(entries, &mut rest);
    let mut out: Vec<PathEntry> = Vec::new();
    let ghost mut done: int = 0;
    assert(s.take(0) =~= Seq::<PathEntry>::empty());
    while rest.len() > 0
        invariant
            0 <= done <= s.len(),
            rest@ == s.skip(done),
            out@ == text_sorted(s.take(done), key),
            key == (|e: PathEntry| e.name@),
        decreases rest.len(),
    {
        let x = rest.remove(0);
        let xv = str_chars(x.name.as_str());
        let mut p: usize = 0;
        while p < out.len() && !chars_less(xv.as_slice(), str_chars(out[p].name.as_str()).as_slice())
            invariant
                p <= out@.len(),
                xv@ == x.name@,
                first_greater(out@, x, key, text_order(), 0) == first_greater(out@, x, key, text_order(), p as int),
                key == (|e: PathEntry| e.name@),
            decreases out.len() - p,
        {
            p = p + 1;
        }
        proof {
            assert(s.take(done + 1).drop_last() =~= s.take(done));
            assert(s.take(done + 1).last() == x);
            assert(s.skip(done).drop_first() =~= s.skip(done + 1));
        }
        out.insert(p, x);
        proof {
            done = done + 1;
        }
    }
    proof {
        assert(s.take(done) =~= s);
    }
    *entries = out;
}

} // verus!
