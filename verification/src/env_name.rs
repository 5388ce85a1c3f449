//! Shell variable names.
use vstd::prelude::*;
use crate::text::{is_ascii_alnum, is_ascii_alpha, str_chars};

verus! {

/// A name a shell accepts on the left of an assignment: a letter or `_`,
/// then letters, digits and `_`.
pub open spec fn shell_variable_name(name: Seq<char>) -> bool {
    &&& name.len() > 0
    &&& (is_ascii_alpha(name[0]) || name[0] == '_')
    &&& forall|i: int| 1 <= i < name.len() ==> is_ascii_alnum(#[trigger] name[i]) || name[i] == '_'
}

pub fn is_shell_variable_name(name: &str) -> (r: bool)
    ensures
        r == shell_variable_name(name@),
{
    let v = str_chars(name);
    if v.len() == 0 {
        return false;
    }
    let f = v[0];
    if !(('a' <= f && f <= 'z') || ('A' <= f && f <= 'Z') || f == '_') {
        return false;
    }
    let mut i: usize = 1;
    while i < v.len()
        invariant
            1 <= i <= v@.len(),
            v@ == name@,
            is_ascii_alpha(v@[0]) || v@[0] == '_',
            forall|k: int| 1 <= k < i ==> is_ascii_alnum(#[trigger] v@[k]) || v@[k] == '_',
        decreases v.len() - i,
    {
        let c = v[i];
        if !(('0' <= c && c <= '9') || ('a' <= c && c <= 'z') || ('A' <= c && c <= 'Z') || c == '_') {
            assert(!(is_ascii_alnum(v@[i as int]) || v@[i as int] == '_'));
            return false;
        }
        i = i + 1;
    }
    true
}

} // verus!
