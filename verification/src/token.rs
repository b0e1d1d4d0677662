//! Identity tokens and the resolution protocol.
//!
//! Every node below the document carries a token, unique among its siblings,
//! that never changes while the node stays in the tree. A handle remembers a
//! cached position and the token of its target; resolution trusts the cached
//! position only after re-checking the token there, and otherwise repairs the
//! position with a linear scan. The token, never the position, decides which
//! node a handle means.

use vstd::prelude::*;

verus! {

/// A node that carries an identity token.
pub trait HasToken {
    /// The token, as seen by specifications.
    spec fn spec_tok(&self) -> u64;

    /// The token of this node.
    fn tok(&self) -> (t: u64)
        ensures
            t == self.spec_tok(),
    ;
}

/// No two elements of `s` carry the same token.
pub open spec fn tokens_unique<T: HasToken>(s: Seq<T>) -> bool {
    forall|i: int, j: int|
        0 <= i < j < s.len() ==> s[i].spec_tok() != s[j].spec_tok()
}

/// Some element of `s` carries the token `t`.
pub open spec fn has_tok<T: HasToken>(s: Seq<T>, t: u64) -> bool {
    exists|i: int| 0 <= i < s.len() && s[i].spec_tok() == t
}

/// The position of the element of `s` that carries the token `t`.
///
/// Meaningful only when `has_tok(s, t)`; unique when `tokens_unique(s)`.
pub open spec fn idx_of_tok<T: HasToken>(s: Seq<T>, t: u64) -> int {
    choose|i: int| 0 <= i < s.len() && s[i].spec_tok() == t
}

/// The resolution protocol, as a mathematical function: trust `cached` if the
/// token there matches, otherwise fall back to a search for the token.
pub open spec fn spec_resolve<T: HasToken>(s: Seq<T>, cached: int, t: u64) -> Option<int> {
    if 0 <= cached < s.len() && s[cached].spec_tok() == t {
        Some(cached)
    } else if has_tok(s, t) {
        Some(idx_of_tok(s, t))
    } else {
        None
    }
}

/// Whatever position resolution returns, the token there is the handle's own,
/// and under unique tokens that position is the only one with it.
pub proof fn lemma_resolve_found<T: HasToken>(s: Seq<T>, cached: int, t: u64)
    requires
        spec_resolve(s, cached, t) is Some,
    ensures
        0 <= spec_resolve(s, cached, t)->Some_0 < s.len(),
        s[spec_resolve(s, cached, t)->Some_0].spec_tok() == t,
        tokens_unique(s) ==> forall|j: int|
            0 <= j < s.len() && s[j].spec_tok() == t ==> j == spec_resolve(s, cached, t)->Some_0,
{
}

/// A successful resolution is stable: resolving again from the repaired
/// position finds the same element and repairs nothing.
pub proof fn lemma_resolve_idempotent<T: HasToken>(s: Seq<T>, cached: int, t: u64)
    requires
        spec_resolve(s, cached, t) is Some,
    ensures
        spec_resolve(s, spec_resolve(s, cached, t)->Some_0, t) == spec_resolve(s, cached, t),
{
}

/// Identity beats position: after the element at position `k` is removed,
/// every handle whose token `t` belongs to a different element still resolves,
/// from any cached position however stale, to the element that carried `t`
/// before the removal, with its content intact.
pub proof fn lemma_remove_keeps_others<T: HasToken>(s: Seq<T>, k: int, t: u64, cached: int)
    requires
        tokens_unique(s),
        0 <= k < s.len(),
        has_tok(s, t),
        idx_of_tok(s, t) != k,
    ensures
        spec_resolve(s.remove(k), cached, t) is Some,
        s.remove(k)[spec_resolve(s.remove(k), cached, t)->Some_0] == s[idx_of_tok(s, t)],
{
    let i = idx_of_tok(s, t);
    let s2 = s.remove(k);
    if i < k {
        assert(s2[i] == s[i]);
    } else {
        assert(s2[i - 1] == s[i]);
    }
    assert(has_tok(s2, t));
    let r = spec_resolve(s2, cached, t)->Some_0;
    assert(0 <= r < s2.len() && s2[r].spec_tok() == t);
    assert(forall|j: int| 0 <= j < s2.len() && s2[j].spec_tok() == t ==> s2[j] == s[i]) by {
        assert forall|j: int| 0 <= j < s2.len() && s2[j].spec_tok() == t implies s2[j] == s[i] by {
            if j < k {
                assert(s2[j] == s[j]);
            } else {
                assert(s2[j] == s[j + 1]);
            }
        }
    }
}

/// Removing a handle's own target makes every later resolution through that
/// handle fail, whatever its cached position, and keep failing while the
/// token stays absent.
pub proof fn lemma_remove_target_fails<T: HasToken>(s: Seq<T>, t: u64)
    requires
        tokens_unique(s),
        has_tok(s, t),
    ensures
        forall|c: int| spec_resolve(s.remove(idx_of_tok(s, t)), c, t) is None,
{
    let i = idx_of_tok(s, t);
    let s2 = s.remove(i);
    assert forall|j: int| 0 <= j < s2.len() implies s2[j].spec_tok() != t by {
        if j < i {
            assert(s2[j] == s[j]);
        } else {
            assert(s2[j] == s[j + 1]);
        }
    }
    assert(!has_tok(s2, t));
}

/// Removing an element keeps the remaining tokens unique.
pub proof fn lemma_unique_after_remove<T: HasToken>(s: Seq<T>, k: int)
    requires
        tokens_unique(s),
        0 <= k < s.len(),
    ensures
        tokens_unique(s.remove(k)),
{
    let s2 = s.remove(k);
    assert forall|i: int, j: int|
        0 <= i < j < s2.len() implies s2[i].spec_tok() != s2[j].spec_tok() by {
        let i0: int = if i < k { i } else { i + 1 };
        let j0: int = if j < k { j } else { j + 1 };
        assert(s2[i] == s[i0]);
        assert(s2[j] == s[j0]);
    }
}

/// Replacing an element by one with the same token keeps the tokens unique.
pub proof fn lemma_unique_after_update<T: HasToken>(s: Seq<T>, k: int, v: T)
    requires
        tokens_unique(s),
        0 <= k < s.len(),
        v.spec_tok() == s[k].spec_tok(),
    ensures
        tokens_unique(s.update(k, v)),
{
}

/// Appending an element whose token no other element carries keeps the
/// tokens unique.
pub proof fn lemma_unique_after_push<T: HasToken>(s: Seq<T>, v: T)
    requires
        tokens_unique(s),
        forall|i: int| 0 <= i < s.len() ==> s[i].spec_tok() != v.spec_tok(),
    ensures
        tokens_unique(s.push(v)),
{
}

/// Finds the position of the token `t` by a linear scan.
pub fn find_tok<T: HasToken>(v: &Vec<T>, t: u64) -> (r: Option<usize>)
    ensures
        match r {
            Some(i) => i < v@.len() && v@[i as int].spec_tok() == t,
            None => !has_tok(v@, t),
        },
{
    let n = v.len();
    let mut i: usize = 0;
    while i < n
        invariant
            n == v@.len(),
            i <= n,
            forall|j: int| 0 <= j < i ==> v@[j].spec_tok() != t,
        decreases n - i,
    {
        if v[i].tok() == t {
            return Some(i);
        }
        i += 1;
    }
    None
}

/// Resolves a token against a collection: the cached position is trusted when
/// the token there matches, and otherwise the collection is scanned.
pub fn resolve_in<T: HasToken>(v: &Vec<T>, cached: usize, t: u64) -> (r: Option<usize>)
    requires
        tokens_unique(v@),
    ensures
        match r {
            Some(i) => Some(i as int) == spec_resolve(v@, cached as int, t) && i < v@.len()
                && v@[i as int].spec_tok() == t,
            None => spec_resolve(v@, cached as int, t) is None && !has_tok(v@, t),
        },
{
    if cached < v.len() && v[cached].tok() == t {
        return Some(cached);
    }
    let r = find_tok(v, t);
    match r {
        Some(i) => {
            proof {
                assert(has_tok(v@, t));
                let w = idx_of_tok(v@, t);
                assert(0 <= w < v@.len() && v@[w].spec_tok() == t);
                if i as int != w {
                    if (i as int) < w {
                        assert(v@[i as int].spec_tok() != v@[w].spec_tok());
                    } else {
                        assert(v@[w].spec_tok() != v@[i as int].spec_tok());
                    }
                }
            }
            Some(i)
        }
        None => None,
    }
}

} // verus!
