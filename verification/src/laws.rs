//! Laws relating the list operations to one another.
//!
//! Every operation's contract describes its effect on the list's view, a
//! `Seq` of the stored values in traversal order: a successful `insert`
//! yields `old@.push(data)`, `insert_at_index(p, x)` yields
//! `old@.insert(p, x)`, `delete_at_index(p)` and `delete_element` yield
//! `old@.remove(..)`, the updates yield `old@.update(..)`, `get(i)`
//! returns `self@[i]` and `find(v)` returns `has_value(self@, v)`.  The
//! proof functions here state, over that model, the laws that follow for
//! combinations of the operations.

use crate::search::{has_value, value_eq};
use vstd::prelude::*;

verus! {

/// Appending adds the new value at the end and leaves every earlier rank
/// as it was: so a run of successful `insert`s builds a list whose `get(i)`
/// returns the `i`-th inserted value, in insertion order.
pub proof fn lemma_append_at_tail<T>(s: Seq<T>, x: T)
    ensures
        s.push(x).len() == s.len() + 1,
        s.push(x)[s.len() as int] == x,
        forall|j: int| 0 <= j < s.len() ==> s.push(x)[j] == s[j],
{
}

/// After a deletion at valid rank `p` of a list viewed as `s`, the list is
/// viewed as `s.remove(p)`: `get(p)` then returns the element formerly at
/// rank `p + 1`, or nothing once `p` has fallen off the end; earlier ranks
/// are untouched; and the length has dropped below any capacity that held
/// `s`, so the freed slot lets a following `insert` succeed by its
/// contract.
pub proof fn lemma_delete_then_get<T>(s: Seq<T>, p: int, cap: int)
    requires
        0 <= p < s.len(),
        s.len() <= cap,
    ensures
        s.remove(p).len() == s.len() - 1,
        s.remove(p).len() < cap,
        p < s.remove(p).len() ==> s.remove(p)[p] == s[p + 1],
        forall|j: int| 0 <= j < p ==> #[trigger] s.remove(p)[j] == s[j],
{
    s.remove_ensures(p);
}

/// Inserting at the front puts the new value at rank 0 and shifts every
/// element that was present up by one rank.
pub proof fn lemma_insert_front_shifts<T>(s: Seq<T>, x: T)
    ensures
        s.insert(0, x).len() == s.len() + 1,
        s.insert(0, x)[0] == x,
        forall|j: int| 0 <= j < s.len() ==> #[trigger] s.insert(0, x)[j + 1] == s[j],
{
    s.insert_ensures(0, x);
}

/// An update at rank `i` changes that element alone: the length and the
/// value at every other rank — so also the relative order of the other
/// elements — stay as they were.
pub proof fn lemma_update_keeps_shape<T>(s: Seq<T>, i: int, x: T)
    requires
        0 <= i < s.len(),
    ensures
        s.update(i, x).len() == s.len(),
        s.update(i, x)[i] == x,
        forall|j: int| 0 <= j < s.len() && j != i ==> #[trigger] s.update(i, x)[j] == s[j],
{
}

/// `find` answers `has_value`, and `get` at rank `r` returns `s[r]`: so
/// `find(v)` is true exactly when some rank `r` within the length holds a
/// value matching `v`.
pub proof fn lemma_found_iff_at_some_rank<T: PartialEq>(s: Seq<T>, v: T)
    ensures
        has_value(s, v) <==> exists|r: int| 0 <= r < s.len() && #[trigger] value_eq(s[r], v),
{
}

/// Round trip: an insertion at valid rank `p` followed at once by a
/// deletion at the same rank restores the original list — same length,
/// same sequence of values.
pub proof fn lemma_insert_then_delete_roundtrip<T>(s: Seq<T>, p: int, x: T)
    requires
        0 <= p <= s.len(),
    ensures
        s.insert(p, x).remove(p) == s,
{
    s.insert_ensures(p, x);
    s.insert(p, x).remove_ensures(p);
    assert(s.insert(p, x).remove(p) =~= s);
}

} // verus!
