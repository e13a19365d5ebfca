//! Association lists keyed by string content.
//!
//! The replicated store keys its maps by serialized keys; this core models
//! each of those maps as a vector of `(String, V)` pairs whose keys are
//! pairwise distinct by content.  The spec functions here give such a vector
//! its map reading, and the lemmas record how membership and lookup move
//! under the three updates the core performs: overwriting one entry in
//! place, appending a fresh key, and removing an entry.
//!
//! A vector of strings read as a set by content is specified the same way.

use vstd::prelude::*;

verus! {

// ------------------------------------------------------------------------
// (String, V) pairs as a map keyed by string content
// ------------------------------------------------------------------------

/// Some entry of `m` has key content `k`.
pub open spec fn has_key<V>(m: Seq<(String, V)>, k: Seq<char>) -> bool {
    exists|i: int| 0 <= i < m.len() && m[i].0@ == k
}

/// The index of the entry with key content `k` (unique when keys are
/// pairwise distinct).
pub open spec fn key_idx<V>(m: Seq<(String, V)>, k: Seq<char>) -> int {
    choose|i: int| 0 <= i < m.len() && m[i].0@ == k
}

/// The value stored under key content `k`.
pub open spec fn lookup<V>(m: Seq<(String, V)>, k: Seq<char>) -> V {
    m[key_idx(m, k)].1
}

/// The keys of `m` are pairwise distinct by content.
pub open spec fn uniq_keys<V>(m: Seq<(String, V)>) -> bool {
    forall|i: int, j: int| 0 <= i < j < m.len() ==> m[i].0@ != m[j].0@
}

/// With distinct keys, an entry holding `k` at position `i` pins both
/// membership and the looked-up index.
pub proof fn lemma_key_idx<V>(m: Seq<(String, V)>, k: Seq<char>, i: int)
    requires
        uniq_keys(m),
        0 <= i < m.len(),
        m[i].0@ == k,
    ensures
        has_key(m, k),
        key_idx(m, k) == i,
        lookup(m, k) == m[i].1,
{
    assert(has_key(m, k));
    let j = key_idx(m, k);
    assert(0 <= j < m.len() && m[j].0@ == k);
    if j < i {
        assert(m[j].0@ != m[i].0@);
    } else if i < j {
        assert(m[i].0@ != m[j].0@);
    }
}

/// Overwriting the entry at `i` with a pair of the same key content keeps
/// the keys distinct, keeps membership unchanged, rebinds that key to the
/// new value and leaves every other key's value alone.
pub proof fn lemma_update_same_key<V>(m: Seq<(String, V)>, i: int, p: (String, V))
    requires
        uniq_keys(m),
        0 <= i < m.len(),
        p.0@ == m[i].0@,
    ensures
        uniq_keys(m.update(i, p)),
        forall|k: Seq<char>| has_key(m.update(i, p), k) == has_key(m, k),
        has_key(m.update(i, p), p.0@),
        lookup(m.update(i, p), p.0@) == p.1,
        forall|k: Seq<char>|
            has_key(m, k) && k != p.0@ ==> lookup(m.update(i, p), k) == lookup(m, k),
{
    let m2 = m.update(i, p);
    assert(forall|j: int| 0 <= j < m.len() ==> m2[j].0@ == m[j].0@);
    assert forall|k: Seq<char>| has_key(m2, k) == has_key(m, k) by {
        if has_key(m2, k) {
            let j = choose|j: int| 0 <= j < m2.len() && m2[j].0@ == k;
            assert(m[j].0@ == k);
        }
        if has_key(m, k) {
            let j = choose|j: int| 0 <= j < m.len() && m[j].0@ == k;
            assert(m2[j].0@ == k);
        }
    }
    lemma_key_idx(m2, p.0@, i);
    assert forall|k: Seq<char>|
        has_key(m, k) && k != p.0@ implies lookup(m2, k) == lookup(m, k) by {
        let j = key_idx(m, k);
        assert(0 <= j < m.len() && m[j].0@ == k);
        assert(j != i);
        lemma_key_idx(m2, k, j);
    }
}

/// Appending an entry under a fresh key keeps the keys distinct, adds that
/// key bound to the new value and leaves every existing key's value alone.
pub proof fn lemma_push_new_key<V>(m: Seq<(String, V)>, p: (String, V))
    requires
        uniq_keys(m),
        !has_key(m, p.0@),
    ensures
        uniq_keys(m.push(p)),
        forall|k: Seq<char>| k != p.0@ ==> has_key(m.push(p), k) == has_key(m, k),
        has_key(m.push(p), p.0@),
        lookup(m.push(p), p.0@) == p.1,
        forall|k: Seq<char>| has_key(m, k) ==> lookup(m.push(p), k) == lookup(m, k),
{
    let m2 = m.push(p);
    assert(forall|j: int| 0 <= j < m.len() ==> m2[j].0@ == m[j].0@);
    assert(m2[m.len() as int].0@ == p.0@);
    assert forall|k: Seq<char>| k != p.0@ implies has_key(m2, k) == has_key(m, k) by {
        if has_key(m2, k) {
            let j = choose|j: int| 0 <= j < m2.len() && m2[j].0@ == k;
            assert(j < m.len());
            assert(m[j].0@ == k);
        }
        if has_key(m, k) {
            let j = choose|j: int| 0 <= j < m.len() && m[j].0@ == k;
            assert(m2[j].0@ == k);
        }
    }
    lemma_key_idx(m2, p.0@, m.len() as int);
    assert forall|k: Seq<char>| has_key(m, k) implies lookup(m2, k) == lookup(m, k) by {
        let j = key_idx(m, k);
        assert(0 <= j < m.len() && m[j].0@ == k);
        lemma_key_idx(m2, k, j);
    }
}

/// Removing the entry at `i` keeps the keys distinct, drops exactly that
/// key and leaves every other key's value alone.
pub proof fn lemma_remove_key<V>(m: Seq<(String, V)>, i: int)
    requires
        uniq_keys(m),
        0 <= i < m.len(),
    ensures
        uniq_keys(m.remove(i)),
        !has_key(m.remove(i), m[i].0@),
        forall|k: Seq<char>| k != m[i].0@ ==> has_key(m.remove(i), k) == has_key(m, k),
        forall|k: Seq<char>|
            has_key(m, k) && k != m[i].0@ ==> lookup(m.remove(i), k) == lookup(m, k),
{
    let m2 = m.remove(i);
    assert(forall|j: int| 0 <= j < i ==> m2[j] == m[j]);
    assert(forall|j: int| i <= j < m2.len() ==> m2[j] == m[j + 1]);
    assert forall|k: Seq<char>| k != m[i].0@ implies has_key(m2, k) == has_key(m, k) by {
        if has_key(m2, k) {
            let j = choose|j: int| 0 <= j < m2.len() && m2[j].0@ == k;
            if j < i {
                assert(m[j].0@ == k);
            } else {
                assert(m[j + 1].0@ == k);
            }
        }
        if has_key(m, k) {
            let j = choose|j: int| 0 <= j < m.len() && m[j].0@ == k;
            assert(j != i);
            if j < i {
                assert(m2[j].0@ == k);
            } else {
                assert(m2[j - 1].0@ == k);
            }
        }
    }
    if has_key(m2, m[i].0@) {
        let j = choose|j: int| 0 <= j < m2.len() && m2[j].0@ == m[i].0@;
        if j < i {
            assert(m[j].0@ == m[i].0@);
        } else {
            assert(m[j + 1].0@ == m[i].0@);
        }
    }
    assert forall|k: Seq<char>|
        has_key(m, k) && k != m[i].0@ implies lookup(m2, k) == lookup(m, k) by {
        let j = key_idx(m, k);
        assert(0 <= j < m.len() && m[j].0@ == k);
        assert(j != i);
        if j < i {
            lemma_key_idx(m2, k, j);
        } else {
            assert(m2[j - 1].0@ == k);
            lemma_key_idx(m2, k, j - 1);
        }
    }
}

/// Finds the entry whose key equals `k` by content.
pub fn assoc_find<V>(m: &Vec<(String, V)>, k: &String) -> (r: Option<usize>)
    ensures
        match r {
            Some(i) => i < m@.len() && m@[i as int].0@ == k@,
            None => !has_key(m@, k@),
        },
{
    let mut i: usize = 0;
    while i < m.len()
        invariant
            i <= m@.len(),
            forall|j: int| 0 <= j < i ==> m@[j].0@ != k@,
        decreases m@.len() - i,
    {
        if m[i].0 == *k {
            return Some(i);
        }
        i += 1;
    }
    None
}

/// Whether some entry's key equals `k` by content.
pub fn assoc_contains<V>(m: &Vec<(String, V)>, k: &String) -> (r: bool)
    ensures
        r == has_key(m@, k@),
{
    let found = assoc_find(m, k);
    match found {
        Some(i) => {
            proof {
                assert(has_key(m@, k@));
            }
            true
        },
        None => false,
    }
}

// ------------------------------------------------------------------------
// Vec<String> as a set by content
// ------------------------------------------------------------------------

/// Some element of `s` has content `x`.
pub open spec fn has_str(s: Seq<String>, x: Seq<char>) -> bool {
    exists|i: int| 0 <= i < s.len() && s[i]@ == x
}

/// The index of the element with content `x` (unique when contents are
/// pairwise distinct).
pub open spec fn str_idx(s: Seq<String>, x: Seq<char>) -> int {
    choose|i: int| 0 <= i < s.len() && s[i]@ == x
}

/// The elements of `s` are pairwise distinct by content.
pub open spec fn uniq_strs(s: Seq<String>) -> bool {
    forall|i: int, j: int| 0 <= i < j < s.len() ==> s[i]@ != s[j]@
}

/// With distinct contents, an element `x` at position `i` pins both
/// membership and the looked-up index.
pub proof fn lemma_str_idx(s: Seq<String>, x: Seq<char>, i: int)
    requires
        uniq_strs(s),
        0 <= i < s.len(),
        s[i]@ == x,
    ensures
        has_str(s, x),
        str_idx(s, x) == i,
{
    assert(has_str(s, x));
    let j = str_idx(s, x);
    assert(0 <= j < s.len() && s[j]@ == x);
    if j < i {
        assert(s[j]@ != s[i]@);
    } else if i < j {
        assert(s[i]@ != s[j]@);
    }
}

/// Appending a fresh content keeps contents distinct and only adds `x`.
pub proof fn lemma_push_new_str(s: Seq<String>, x: String)
    requires
        uniq_strs(s),
        !has_str(s, x@),
    ensures
        uniq_strs(s.push(x)),
        has_str(s.push(x), x@),
        forall|y: Seq<char>| y != x@ ==> has_str(s.push(x), y) == has_str(s, y),
{
    let s2 = s.push(x);
    assert(forall|j: int| 0 <= j < s.len() ==> s2[j]@ == s[j]@);
    assert(s2[s.len() as int]@ == x@);
    assert forall|y: Seq<char>| y != x@ implies has_str(s2, y) == has_str(s, y) by {
        if has_str(s2, y) {
            let j = choose|j: int| 0 <= j < s2.len() && s2[j]@ == y;
            assert(j < s.len());
            assert(s[j]@ == y);
        }
        if has_str(s, y) {
            let j = choose|j: int| 0 <= j < s.len() && s[j]@ == y;
            assert(s2[j]@ == y);
        }
    }
}

/// Removing the element at `i` keeps contents distinct, drops exactly that
/// content and keeps every other.
pub proof fn lemma_remove_str(s: Seq<String>, i: int)
    requires
        uniq_strs(s),
        0 <= i < s.len(),
    ensures
        uniq_strs(s.remove(i)),
        !has_str(s.remove(i), s[i]@),
        forall|y: Seq<char>| y != s[i]@ ==> has_str(s.remove(i), y) == has_str(s, y),
{
    let s2 = s.remove(i);
    assert(forall|j: int| 0 <= j < i ==> s2[j] == s[j]);
    assert(forall|j: int| i <= j < s2.len() ==> s2[j] == s[j + 1]);
    if has_str(s2, s[i]@) {
        let j = choose|j: int| 0 <= j < s2.len() && s2[j]@ == s[i]@;
        if j < i {
            assert(s[j]@ == s[i]@);
        } else {
            assert(s[j + 1]@ == s[i]@);
        }
    }
    assert forall|y: Seq<char>| y != s[i]@ implies has_str(s2, y) == has_str(s, y) by {
        if has_str(s2, y) {
            let j = choose|j: int| 0 <= j < s2.len() && s2[j]@ == y;
            if j < i {
                assert(s[j]@ == y);
            } else {
                assert(s[j + 1]@ == y);
            }
        }
        if has_str(s, y) {
            let j = choose|j: int| 0 <= j < s.len() && s[j]@ == y;
            assert(j != i);
            if j < i {
                assert(s2[j]@ == y);
            } else {
                assert(s2[j - 1]@ == y);
            }
        }
    }
}

/// Extending a prefix by one element adds exactly that element's content.
pub proof fn lemma_has_str_subrange_step(s: Seq<String>, i: int)
    requires
        0 <= i < s.len(),
    ensures
        forall|u: Seq<char>|
            has_str(s.subrange(0, i + 1), u) == (has_str(s.subrange(0, i), u) || s[i]@ == u),
{
    let pre = s.subrange(0, i);
    let cur = s.subrange(0, i + 1);
    assert(forall|j: int| 0 <= j < pre.len() ==> pre[j] == cur[j]);
    assert(cur[i] == s[i]);
    assert forall|u: Seq<char>|
        has_str(cur, u) == (has_str(pre, u) || s[i]@ == u) by {
        if has_str(cur, u) {
            let j = choose|j: int| 0 <= j < cur.len() && cur[j]@ == u;
            if j < i {
                assert(pre[j]@ == u);
            }
        }
        if has_str(pre, u) {
            let j = choose|j: int| 0 <= j < pre.len() && pre[j]@ == u;
            assert(cur[j]@ == u);
        }
        if s[i]@ == u {
            assert(cur[i]@ == u);
        }
    }
}

/// Finds the element whose content equals `x`.
pub fn str_find(s: &Vec<String>, x: &String) -> (r: Option<usize>)
    ensures
        match r {
            Some(i) => i < s@.len() && s@[i as int]@ == x@,
            None => !has_str(s@, x@),
        },
{
    let mut i: usize = 0;
    while i < s.len()
        invariant
            i <= s@.len(),
            forall|j: int| 0 <= j < i ==> s@[j]@ != x@,
        decreases s@.len() - i,
    {
        if s[i] == *x {
            return Some(i);
        }
        i += 1;
    }
    None
}

/// Whether some element's content equals `x`.
pub fn str_contains(s: &Vec<String>, x: &String) -> (r: bool)
    ensures
        r == has_str(s@, x@),
{
    let found = str_find(s, x);
    match found {
        Some(i) => {
            proof {
                assert(has_str(s@, x@));
            }
            true
        },
        None => false,
    }
}

} // verus!
