//! Spec-level account of value lookup in a sequence.
//!
//! Both list containers find, update and delete elements by comparing the
//! stored values with `==` on the element type `T`.  In contracts that
//! comparison is rendered by [`value_eq`], which is `T`'s own `eq_spec`:
//! the meaning that `vstd` gives to `T: PartialEq`.  The functions that
//! rely on the comparison require `T::obeys_eq_spec()`, so that the
//! executable `==` is known to agree with [`value_eq`].
//!
//! [`has_value`] says whether a sequence holds a matching value at all,
//! and [`first_index_of`] names the rank of the first match — the element
//! that a first-match search, deletion or update acts on.

use vstd::prelude::*;
use vstd::std_specs::cmp::PartialEqSpec;

verus! {

/// What `==` on `T` means in contracts.
pub open spec fn value_eq<T: PartialEq>(x: T, v: T) -> bool {
    x.eq_spec(&v)
}

/// Whether some element of `s` matches `v`.
pub open spec fn has_value<T: PartialEq>(s: Seq<T>, v: T) -> bool {
    exists|j: int| 0 <= j < s.len() && #[trigger] value_eq(s[j], v)
}

/// The rank of the first element of `s` matching `v`; meaningful only
/// when `has_value(s, v)` holds.
pub open spec fn first_index_of<T: PartialEq>(s: Seq<T>, v: T) -> int
    decreases s.len(),
{
    if s.len() <= 0 {
        0
    } else if value_eq(s[0], v) {
        0
    } else {
        1 + first_index_of(s.drop_first(), v)
    }
}

/// When a match exists, `first_index_of` is a valid rank, it matches, and
/// no earlier rank matches.
pub proof fn lemma_first_index_of_in_range<T: PartialEq>(s: Seq<T>, v: T)
    requires
        has_value(s, v),
    ensures
        0 <= first_index_of(s, v) < s.len(),
        value_eq(s[first_index_of(s, v)], v),
        forall|j: int| 0 <= j < first_index_of(s, v) ==> !value_eq(s[j], v),
    decreases s.len(),
{
    if value_eq(s[0], v) {
    } else {
        let j0 = choose|j: int| 0 <= j < s.len() && #[trigger] value_eq(s[j], v);
        assert(value_eq(s.drop_first()[j0 - 1], v));
        lemma_first_index_of_in_range(s.drop_first(), v);
        let fi = first_index_of(s.drop_first(), v);
        assert(s[1 + fi] == s.drop_first()[fi]);
        assert forall|j: int| 0 <= j < first_index_of(s, v) implies !value_eq(s[j], v) by {
            if j > 0 {
                assert(s[j] == s.drop_first()[j - 1]);
            }
        }
    }
}

/// A rank that matches, with no earlier match, is exactly `first_index_of`.
pub proof fn lemma_first_index_of_matches<T: PartialEq>(s: Seq<T>, v: T, k: int)
    requires
        0 <= k < s.len(),
        value_eq(s[k], v),
        forall|j: int| 0 <= j < k ==> !value_eq(s[j], v),
    ensures
        has_value(s, v),
        first_index_of(s, v) == k,
    decreases s.len(),
{
    assert(has_value(s, v));
    if k == 0 {
    } else {
        assert(!value_eq(s[0], v));
        assert(value_eq(s.drop_first()[k - 1], v));
        assert forall|j: int| 0 <= j < k - 1 implies !value_eq(s.drop_first()[j], v) by {
            assert(s.drop_first()[j] == s[j + 1]);
        }
        lemma_first_index_of_matches(s.drop_first(), v, k - 1);
    }
}

/// How search decomposes over a list with first element `x` and rest `s`.
pub proof fn lemma_value_search_cons<T: PartialEq>(x: T, s: Seq<T>, v: T)
    ensures
        has_value(seq![x] + s, v) == (value_eq(x, v) || has_value(s, v)),
        value_eq(x, v) ==> first_index_of(seq![x] + s, v) == 0,
        !value_eq(x, v) ==> first_index_of(seq![x] + s, v) == 1 + first_index_of(s, v),
{
    let c = seq![x] + s;
    assert(c[0] == x);
    assert(c.drop_first() =~= s);
    if value_eq(x, v) {
        assert(has_value(c, v));
    } else {
        if has_value(s, v) {
            let j = choose|j: int| 0 <= j < s.len() && #[trigger] value_eq(s[j], v);
            assert(value_eq(c[j + 1], v));
            assert(has_value(c, v));
        }
        if has_value(c, v) {
            let j = choose|j: int| 0 <= j < c.len() && #[trigger] value_eq(c[j], v);
            assert(value_eq(s[j - 1], v));
            assert(has_value(s, v));
        }
    }
}

} // verus!
