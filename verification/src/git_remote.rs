//! Checks on git remotes, branch names and template remote names taken
//! from the configuration.
use vstd::prelude::*;
use crate::text::{
    chars_string, contains, has_infix, has_suffix, is_ascii_alnum, is_ctrl, is_control, lemma_split_on_len,
    split_on, str_chars, trim, trim_chars, ends_with, chars_eq,
};

verus! {

/// The trimmed remote, unless it is empty, starts with `-` (it would read
/// as an option) or holds a control character.
pub open spec fn sanitized_remote(remote: Seq<char>) -> Option<Seq<char>> {
    let r = trim(remote);
    if r.len() == 0 || r[0] == '-' || (exists|i: int| 0 <= i < r.len() && is_ctrl(#[trigger] r[i])) {
        None
    } else {
        Some(r)
    }
}

pub fn sanitize_git_remote(remote: &str) -> (r: Option<String>)
    ensures
        match r {
            Some(s) => sanitized_remote(remote@) == Some(s@),
            None => sanitized_remote(remote@) is None,
        },
{
    let v = str_chars(remote);
    let t = trim_chars(v.as_slice());
    if t.len() == 0 || t[0] == '-' {
        return None;
    }
    let mut i: usize = 0;
    while i < t.len()
        invariant
            i <= t@.len(),
            t@ == trim(remote@),
            t@.len() > 0 && t@[0] != '-',
            forall|k: int| 0 <= k < i ==> !is_ctrl(#[trigger] t@[k]),
        decreases t.len() - i,
    {
        if is_control(t[i]) {
            assert(is_ctrl(t@[i as int]));
            return None;
        }
        i = i + 1;
    }
    Some(chars_string(t.as_slice()))
}

/// Characters that git refuses in a ref name.
pub open spec fn branch_bad_char(c: char) -> bool {
    is_ctrl(c) || c == ' ' || c == '~' || c == '^' || c == ':' || c == '?' || c == '*' || c == '['
        || c == '\\'
}

/// A path component of a branch name: not empty, not hidden, not a lock file.
pub open spec fn branch_component_ok(c: Seq<char>) -> bool {
    c.len() > 0 && c[0] != '.' && !has_suffix(c, seq!['.', 'l', 'o', 'c', 'k'])
}

/// A branch name that is safe to hand to git.
pub open spec fn valid_branch(b: Seq<char>) -> bool {
    &&& b.len() > 0
    &&& trim(b) == b
    &&& b != seq!['@']
    &&& b[0] != '-'
    &&& b[0] != '/'
    &&& b.last() != '/'
    &&& b.last() != '.'
    &&& !has_infix(b, seq!['.', '.'])
    &&& !has_infix(b, seq!['/', '/'])
    &&& !has_infix(b, seq!['@', '{'])
    &&& forall|i: int| 0 <= i < b.len() ==> !branch_bad_char(#[trigger] b[i])
    &&& forall|k: int| 0 <= k < split_on(b, '/').len() ==> branch_component_ok(#[trigger] split_on(b, '/')[k])
}

fn is_branch_bad_char(c: char) -> (r: bool)
    ensures
        r == branch_bad_char(c),
{
    is_control(c) || c == ' ' || c == '~' || c == '^' || c == ':' || c == '?' || c == '*' || c == '['
        || c == '\\'
}

fn component_ok(c: &[char]) -> (r: bool)
    ensures
        r == branch_component_ok(c@),
{
    let lock: Vec<char> = vec!['.', 'l', 'o', 'c', 'k'];
    proof {
        assert(lock@ =~= seq!['.', 'l', 'o', 'c', 'k']);
    }
    c.len() > 0 && c[0] != '.' && !ends_with(c, lock.as_slice())
}

pub fn valid_git_branch_name(branch: &str) -> (r: bool)
    ensures
        r == valid_branch(branch@),
{
    let b = str_chars(branch);
    let n = b.len();
    if n == 0 {
        return false;
    }
    let t = trim_chars(b.as_slice());
    if !chars_eq(t.as_slice(), b.as_slice()) {
        return false;
    }
    if n == 1 && b[0] == '@' {
        assert(b@ =~= seq!['@']);
        return false;
    }
    if b[0] == '-' || b[0] == '/' || b[n - 1] == '/' || b[n - 1] == '.' {
        return false;
    }
    let dd: Vec<char> = vec!['.', '.'];
    let ss: Vec<char> = vec!['/', '/'];
    let ab: Vec<char> = vec!['@', '{'];
    proof {
        assert(dd@ =~= seq!['.', '.']);
        assert(ss@ =~= seq!['/', '/']);
        assert(ab@ =~= seq!['@', '{']);
        if b@ == seq!['@'] {
            assert(b@[0] == '@');
        }
    }
    if contains(b.as_slice(), dd.as_slice()) || contains(b.as_slice(), ss.as_slice()) || contains(
        b.as_slice(),
        ab.as_slice(),
    ) {
        return false;
    }
    let mut i: usize = 0;
    while i < n
        invariant
            i <= n == b@.len(),
            b@ == branch@,
            forall|k: int| 0 <= k < i ==> !branch_bad_char(#[trigger] b@[k]),
        decreases n - i,
    {
        if is_branch_bad_char(b[i]) {
            assert(branch_bad_char(b@[i as int]));
            return false;
        }
        i = i + 1;
    }
    let mut current: Vec<char> = Vec::new();
    let mut i: usize = 0;
    proof {
        assert(b@.take(0) =~= Seq::<char>::empty());
    }
    while i < n
        invariant
            i <= n == b@.len(),
            b@ == branch@,
            n > 0,
            trim(b@) == b@,
            b@ != seq!['@'],
            b@[0] != '-' && b@[0] != '/' && b@.last() != '/' && b@.last() != '.',
            !has_infix(b@, seq!['.', '.']),
            !has_infix(b@, seq!['/', '/']),
            !has_infix(b@, seq!['@', '{']),
            forall|k: int| 0 <= k < b@.len() ==> !branch_bad_char(#[trigger] b@[k]),
            current@ == split_on(b@.take(i as int), '/').last(),
            forall|k: int|
                0 <= k < split_on(b@.take(i as int), '/').len() - 1 ==> branch_component_ok(
                    #[trigger] split_on(b@.take(i as int), '/')[k],
                ),
        decreases n - i,
    {
        let ghost prev = split_on(b@.take(i as int), '/');
        proof {
            lemma_split_on_len(b@.take(i as int), '/');
            assert(b@.take(i + 1).drop_last() =~= b@.take(i as int));
        }
        if b[i] == '/' {
            if !component_ok(current.as_slice()) {
                proof {
                    assert(split_on(b@.take(i + 1), '/') == prev.push(seq![]));
                    assert(split_on(b@.take(i + 1), '/')[prev.len() - 1] == prev.last());
                    crate::text::lemma_split_prefix_kept(b@, '/', i + 1, prev.len() - 1);
                    assert(!branch_component_ok(split_on(b@, '/')[prev.len() - 1]));
                }
                return false;
            }
            current = Vec::new();
            proof {
                let next = split_on(b@.take(i + 1), '/');
                assert(next == prev.push(seq![]));
                assert forall|k: int| 0 <= k < next.len() - 1 implies branch_component_ok(#[trigger] next[k]) by {
                    if k < prev.len() - 1 {
                        assert(next[k] == prev[k]);
                    } else {
                        assert(next[k] == prev.last());
                    }
                }
                assert(current@ =~= next.last());
            }
        } else {
            current.push(b[i]);
            proof {
                let next = split_on(b@.take(i + 1), '/');
                assert(next == prev.update(prev.len() - 1, prev.last().push(b@[i as int])));
                assert forall|k: int| 0 <= k < next.len() - 1 implies branch_component_ok(#[trigger] next[k]) by {
                    assert(next[k] == prev[k]);
                }
                assert(current@ =~= next.last());
            }
        }
        i = i + 1;
    }
    proof {
        assert(b@.take(n as int) =~= b@);
        lemma_split_on_len(b@, '/');
    }
    component_ok(current.as_slice())
}

/// A name made only of ASCII letters, digits, `-` and `_`.
pub open spec fn valid_remote_name(name: Seq<char>) -> bool {
    name.len() > 0 && forall|i: int|
        0 <= i < name.len() ==> is_ascii_alnum(#[trigger] name[i]) || name[i] == '-' || name[i] == '_'
}

pub fn valid_template_remote_name(name: &str) -> (r: bool)
    ensures
        r == valid_remote_name(name@),
{
    let v = str_chars(name);
    if v.len() == 0 {
        return false;
    }
    let mut i: usize = 0;
    while i < v.len()
        invariant
            i <= v@.len(),
            v@ == name@,
            forall|k: int| 0 <= k < i ==> is_ascii_alnum(#[trigger] v@[k]) || v@[k] == '-' || v@[k] == '_',
        decreases v.len() - i,
    {
        let c = v[i];
        if !(('0' <= c && c <= '9') || ('a' <= c && c <= 'z') || ('A' <= c && c <= 'Z') || c == '-' || c
            == '_') {
            assert(!(is_ascii_alnum(v@[i as int]) || v@[i as int] == '-' || v@[i as int] == '_'));
            return false;
        }
        i = i + 1;
    }
    true
}

} // verus!
