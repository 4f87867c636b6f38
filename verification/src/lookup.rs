//! Name-keyed association lists: the small lookup tables (export tables,
//! memoization caches, interned-string pools) are vectors of
//! `(name, value)` pairs searched front to back, with first match winning.

use crate::objc::{find_sel, find_sel_from, string_eq};
use vstd::prelude::*;

verus! {

/// The value bound to the first pair named `name`, searched from `i`.
pub open spec fn assoc_find_from<T>(s: Seq<(String, T)>, name: Seq<char>, i: int) -> Option<T>
    decreases s.len() - i,
{
    if i < 0 || i >= s.len() {
        None
    } else if s[i].0@ == name {
        Some(s[i].1)
    } else {
        assoc_find_from(s, name, i + 1)
    }
}

/// The value bound to `name`, if any.
pub open spec fn assoc_find<T>(s: Seq<(String, T)>, name: Seq<char>) -> Option<T> {
    assoc_find_from(s, name, 0)
}

/// No two pairs share a name.
pub open spec fn assoc_unique<T>(s: Seq<(String, T)>) -> bool {
    forall|i: int, j: int| 0 <= i < j < s.len() ==> s[i].0@ != s[j].0@
}

/// The index of the first pair named `name`.
pub fn assoc_lookup<T>(v: &Vec<(String, T)>, name: &String) -> (r: Option<usize>)
    ensures
        match r {
            Some(i) => {
                &&& i < v@.len()
                &&& v@[i as int].0@ == name@
                &&& assoc_find(v@, name@) == Some(v@[i as int].1)
            },
            None => assoc_find(v@, name@) is None,
        },
{
    let n = v.len();
    let mut i: usize = 0;
    while i < n
        invariant
            i <= n,
            n == v@.len(),
            assoc_find_from(v@, name@, 0) == assoc_find_from(v@, name@, i as int),
        decreases n - i,
    {
        if string_eq(&v[i].0, name) {
            return Some(i);
        }
        i += 1;
    }
    None
}

/// The index of the first string equal to `name` in a plain name list.
pub fn find_name(v: &Vec<String>, name: &String) -> (r: Option<usize>)
    ensures
        match r {
            Some(i) => find_sel(v@, name@) == Some(i as int),
            None => find_sel(v@, name@) is None,
        },
{
    let n = v.len();
    let mut i: usize = 0;
    while i < n
        invariant
            i <= n,
            n == v@.len(),
            find_sel_from(v@, name@, 0) == find_sel_from(v@, name@, i as int),
        decreases n - i,
    {
        if string_eq(&v[i], name) {
            return Some(i);
        }
        i += 1;
    }
    None
}

/// A failed lookup means no pair from `i` on has the name.
pub proof fn lemma_assoc_none<T>(s: Seq<(String, T)>, name: Seq<char>, i: int)
    requires
        0 <= i <= s.len(),
        assoc_find_from(s, name, i) is None,
    ensures
        forall|k: int| i <= k < s.len() ==> s[k].0@ != name,
    decreases s.len() - i,
{
    if i < s.len() {
        lemma_assoc_none(s, name, i + 1);
    }
}

/// Appending a pair under a new name makes it findable.
pub proof fn lemma_assoc_push<T>(s: Seq<(String, T)>, name: Seq<char>, pushed: (String, T), i: int)
    requires
        0 <= i <= s.len(),
        assoc_find_from(s, name, i) is None,
        pushed.0@ == name,
    ensures
        assoc_find_from(s.push(pushed), name, i) == Some(pushed.1),
    decreases s.len() - i,
{
    if i < s.len() {
        lemma_assoc_push(s, name, pushed, i + 1);
    }
}

/// A pair that is in the list is found (perhaps at an earlier index).
pub proof fn lemma_assoc_present<T>(s: Seq<(String, T)>, k: int, i: int)
    requires
        0 <= i <= k < s.len(),
    ensures
        assoc_find_from(s, s[k].0@, i) is Some,
    decreases k - i,
{
    if i < k && s[i].0@ != s[k].0@ {
        lemma_assoc_present(s, k, i + 1);
    }
}

/// A lookup that succeeds keeps succeeding, unchanged, after a push.
pub proof fn lemma_assoc_push_stable<T>(
    s: Seq<(String, T)>,
    name: Seq<char>,
    pushed: (String, T),
    i: int,
)
    requires
        0 <= i <= s.len(),
        assoc_find_from(s, name, i) is Some,
    ensures
        assoc_find_from(s.push(pushed), name, i) == assoc_find_from(s, name, i),
    decreases s.len() - i,
{
    if i < s.len() && s[i].0@ != name {
        lemma_assoc_push_stable(s, name, pushed, i + 1);
    }
}

/// Pushing a pair whose name is absent keeps the names unique.
pub proof fn lemma_assoc_unique_push<T>(s: Seq<(String, T)>, pushed: (String, T))
    requires
        assoc_unique(s),
        assoc_find(s, pushed.0@) is None,
    ensures
        assoc_unique(s.push(pushed)),
{
    lemma_assoc_none(s, pushed.0@, 0);
    assert forall|i: int, j: int|
        0 <= i < j < s.push(pushed).len() implies s.push(pushed)[i].0@ != s.push(
        pushed,
    )[j].0@ by {
        if j < s.len() {
            assert(s[i].0@ != s[j].0@);
        } else {
            assert(s[i].0@ != pushed.0@);
        }
    }
}

} // verus!
