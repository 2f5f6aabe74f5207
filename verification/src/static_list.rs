//! A fixed-capacity singly linked list over a preallocated slot array.
//!
//! A `StaticList<T, N>` owns `N` slots.  Each slot is either empty or
//! holds a value together with the index of the next slot in the chain.
//! A `head` index points at the first element's slot, and a stack of free
//! slot indices records which slots are available for reuse; deleting an
//! element returns its slot to that stack, and inserting pops one.  The
//! slot an element lives in is a physical detail: all contracts speak of
//! ranks — positions in the traversal order from `head` — through the
//! view `self@`, the sequence of stored values in that order.
//!
//! The well-formedness predicate [`StaticList::wf`] ties the three parts
//! together: the chain visits distinct occupied slots and its links agree
//! with a ghost record of the traversal order, the free stack holds
//! distinct empty slots, and chain and free stack together account for
//! all `N` slots.

use crate::search::{first_index_of, has_value, value_eq};
use crate::search::lemma_first_index_of_matches;
use vstd::prelude::*;
use vstd::std_specs::cmp::PartialEqSpec;

verus! {

#[derive(Clone, Copy)]
struct Node<T> {
    data: T,
    next: Option<usize>,
}

/// A static array-based singly linked list.
///
/// `T` is the type of the stored values; `N` is the fixed capacity.
pub struct StaticList<T, const N: usize> {
    nodes: Vec<Option<Node<T>>>,
    head: Option<usize>,
    free: Vec<usize>,
    order: Ghost<Seq<usize>>,
}

impl<T: Copy + PartialEq, const N: usize> View for StaticList<T, N> {
    type V = Seq<T>;

    /// The stored values in traversal order from `head`.
    closed spec fn view(&self) -> Seq<T> {
        self.order@.map(|k: int, idx: usize| self.nodes@[idx as int].unwrap().data)
    }
}

impl<T: Copy + PartialEq, const N: usize> StaticList<T, N> {
    /// The slot that rank `k` of the chain lives in, as a link value:
    /// `None` past the end of the chain.
    spec fn link_to(self, k: int) -> Option<usize> {
        if 0 <= k < self.order@.len() {
            Some(self.order@[k])
        } else {
            None
        }
    }

    /// Well-formedness: the chain from `head` follows the ghost traversal
    /// order through distinct occupied slots, the free stack holds
    /// distinct empty slots, and together they account for all `N` slots.
    pub closed spec fn wf(self) -> bool {
        &&& self.nodes@.len() == N
        &&& self.order@.no_duplicates()
        &&& self.free@.no_duplicates()
        &&& self.order@.len() + self.free@.len() == N
        &&& self.head == self.link_to(0)
        &&& forall|k: int|
            0 <= k < self.order@.len() ==> (#[trigger] self.order@[k]) < N
                && self.nodes@[self.order@[k] as int] is Some
                && self.nodes@[self.order@[k] as int].unwrap().next == self.link_to(k + 1)
        &&& forall|k: int|
            0 <= k < self.free@.len() ==> (#[trigger] self.free@[k]) < N
                && self.nodes@[self.free@[k] as int] is None
    }

    /// Creates a new empty list: all `N` slots empty and free.
    pub fn new() -> (r: Self)
        ensures
            r.wf(),
            r@ == Seq::<T>::empty(),
    {
        let mut nodes: Vec<Option<Node<T>>> = Vec::with_capacity(N);
        let mut j: usize = 0;
        while j < N
            invariant
                j <= N,
                nodes@.len() == j,
                forall|k: int| 0 <= k < j ==> (#[trigger] nodes@[k]) is None,
            decreases N - j,
        {
            nodes.push(None);
            j += 1;
        }
        let mut free: Vec<usize> = Vec::with_capacity(N);
        let mut i: usize = N;
        while i > 0
            invariant
                i <= N,
                free@.len() == N - i,
                forall|k: int| 0 <= k < free@.len() ==> (#[trigger] free@[k]) as int == N - 1 - k,
            decreases i,
        {
            i -= 1;
            free.push(i);
        }
        let r = StaticList { nodes, head: None, free, order: Ghost(Seq::empty()) };
        proof {
            assert(r@ =~= Seq::<T>::empty());
        }
        r
    }

    /// Walks the chain to rank `t` and returns that rank's slot index,
    /// paired with its predecessor's slot index (`None` at the head);
    /// `None` when the chain is shorter than `t + 1`.
    fn rank_slot(&self, t: usize) -> (r: Option<(Option<usize>, usize)>)
        requires
            self.wf(),
        ensures
            match r {
                Some(pc) => {
                    &&& (t as int) < self.order@.len()
                    &&& pc.1 == self.order@[t as int]
                    &&& pc.0 == (if t == 0 {
                        None::<usize>
                    } else {
                        Some(self.order@[t as int - 1])
                    })
                },
                None => (t as int) >= self.order@.len(),
            },
    {
        let mut cur: usize;
        match self.head {
            None => {
                return None;
            },
            Some(h) => {
                cur = h;
            },
        }
        let mut prev: Option<usize> = None;
        let mut k: usize = 0;
        while k < t
            invariant
                self.wf(),
                k <= t,
                (k as int) < self.order@.len(),
                cur == self.order@[k as int],
                prev == (if k == 0 {
                    None::<usize>
                } else {
                    Some(self.order@[k as int - 1])
                }),
            decreases t - k,
        {
            match self.nodes[cur].unwrap().next {
                None => {
                    return None;
                },
                Some(nx) => {
                    prev = Some(cur);
                    cur = nx;
                    k += 1;
                },
            }
        }
        Some((prev, cur))
    }

    /// Walks the chain to its last slot; the chain must be non-empty.
    fn last_slot(&self) -> (r: usize)
        requires
            self.wf(),
            self.order@.len() > 0,
        ensures
            r == self.order@[self.order@.len() - 1],
    {
        let mut cur: usize = self.head.unwrap();
        let ghost mut k: int = 0;
        loop
            invariant
                self.wf(),
                0 <= k < self.order@.len(),
                cur == self.order@[k],
            ensures
                cur == self.order@[self.order@.len() - 1],
            decreases self.order@.len() - k,
        {
            match self.nodes[cur].unwrap().next {
                None => {
                    break;
                },
                Some(nx) => {
                    cur = nx;
                    proof {
                        k = k + 1;
                    }
                },
            }
        }
        cur
    }

    /// Takes a free slot, fills it with `data`, and splices it into the
    /// chain at rank `k`, right after the slot `prev` (`None` to splice in
    /// at the head).  Fails exactly when no slot is free, mutating
    /// nothing.
    #[verifier::rlimit(50)]
    fn link_at(&mut self, prev: Option<usize>, data: T, Ghost(k): Ghost<int>) -> (r: bool)
        requires
            old(self).wf(),
            0 <= k <= old(self).order@.len(),
            prev == (if k == 0 {
                None::<usize>
            } else {
                Some(old(self).order@[k - 1])
            }),
        ensures
            final(self).wf(),
            r == (old(self)@.len() < N),
            r ==> final(self)@ == old(self)@.insert(k, data),
            !r ==> *final(self) == *old(self),
    {
        let ghost ord = old(self).order@;
        let ghost ns = old(self).nodes@;
        let ghost fr = old(self).free@;
        let ghost v0 = old(self)@;
        if self.free.len() == 0 {
            return false;
        }
        let f = self.free.pop().unwrap();
        proof {
            assert(f == fr[fr.len() - 1]);
            assert(ns[f as int] is None);
            assert forall|i: int| 0 <= i < ord.len() implies ord[i] != f by {
                assert(ns[ord[i] as int] is Some);
            }
        }
        let nxt: Option<usize> = match prev {
            None => self.head,
            Some(p) => self.nodes[p].unwrap().next,
        };
        proof {
            assert(nxt == old(self).link_to(k));
        }
        self.nodes[f] = Some(Node { data, next: nxt });
        match prev {
            None => {
                self.head = Some(f);
            },
            Some(p) => {
                proof {
                    assert(ns[p as int] is Some);
                }
                let mut pn = self.nodes[p].unwrap();
                pn.next = Some(f);
                self.nodes[p] = Some(pn);
            },
        }
        self.order = Ghost(ord.insert(k, f));
        proof {
            let ord2 = self.order@;
            let ns2 = self.nodes@;
            let fr2 = self.free@;
            ord.insert_ensures(k, f);
            assert forall|i: int, j: int|
                0 <= i < ord2.len() && 0 <= j < ord2.len() && i != j implies ord2[i] != ord2[j] by {
                let i0 = if i < k { i } else { i - 1 };
                let j0 = if j < k { j } else { j - 1 };
                if i != k && j != k {
                    assert(ord2[i] == ord[i0]);
                    assert(ord2[j] == ord[j0]);
                }
            }
            assert forall|i: int|
                0 <= i < ord2.len() implies (#[trigger] ord2[i]) < N && ns2[ord2[i] as int] is Some
                    && ns2[ord2[i] as int].unwrap().next == self.link_to(i + 1) by {
                if k > 0 {
                    assert(ord2[k - 1] == ord[k - 1]);
                }
                if i < k - 1 {
                    assert(ord2[i] == ord[i]);
                    assert(ord[i] != ord[k - 1]);
                    assert(ns2[ord2[i] as int] == ns[ord[i] as int]);
                    assert(ord2[i + 1] == ord[i + 1]);
                } else if i == k - 1 {
                    assert(ord2[i] == ord[i]);
                    assert(ord2[k] == f);
                } else if i == k {
                    assert(ord2[i] == f);
                    if k + 1 < ord2.len() {
                        assert(ord2[k + 1] == ord[k]);
                    }
                } else {
                    assert(ord2[i] == ord[i - 1]);
                    assert(ord[i - 1] != f);
                    if k > 0 {
                        assert(i - 1 != k - 1);
                        assert(ord[i - 1] != ord[k - 1]);
                    }
                    assert(ns2[ord2[i] as int] == ns[ord[i - 1] as int]);
                    if i + 1 < ord2.len() {
                        assert(ord2[i + 1] == ord[i]);
                    }
                }
            }
            assert forall|i: int|
                0 <= i < fr2.len() implies (#[trigger] fr2[i]) < N && ns2[fr2[i] as int] is None by {
                assert(fr2[i] == fr[i]);
                assert(fr[i] != f);
                assert(ns[fr[i] as int] is None);
                if k > 0 {
                    assert(ns[ord[k - 1] as int] is Some);
                    assert(fr[i] != ord[k - 1]);
                }
            }
            assert(self.wf());
            v0.insert_ensures(k, data);
            assert forall|i: int| 0 <= i < ord2.len() implies self@[i] == v0.insert(k, data)[i] by {
                if k > 0 {
                    assert(ord2[k - 1] == ord[k - 1]);
                }
                if i < k {
                    assert(ord2[i] == ord[i]);
                    assert(self@[i] == ns2[ord2[i] as int].unwrap().data);
                    assert(ns2[ord[i] as int].unwrap().data == ns[ord[i] as int].unwrap().data);
                    assert(v0[i] == ns[ord[i] as int].unwrap().data);
                } else if i == k {
                    assert(ord2[i] == f);
                } else {
                    assert(ord2[i] == ord[i - 1]);
                    assert(ord[i - 1] != f);
                    assert(v0.insert(k, data)[i] == v0[i - 1]);
                    assert(ns2[ord[i - 1] as int].unwrap().data == ns[ord[i - 1] as int].unwrap().data);
                }
            }
            assert(self@ =~= v0.insert(k, data));
        }
        true
    }

    /// Unlinks the occupied slot `cur`, which sits at rank `k` right
    /// after the slot `prev` (`None` when `cur` is the head), and returns
    /// it to the free stack.
    #[verifier::rlimit(50)]
    fn unlink_at(&mut self, prev: Option<usize>, cur: usize, Ghost(k): Ghost<int>)
        requires
            old(self).wf(),
            0 <= k < old(self).order@.len(),
            cur == old(self).order@[k],
            prev == (if k == 0 {
                None::<usize>
            } else {
                Some(old(self).order@[k - 1])
            }),
        ensures
            final(self).wf(),
            final(self)@ == old(self)@.remove(k),
    {
        let ghost ord = old(self).order@;
        let ghost ns = old(self).nodes@;
        let ghost fr = old(self).free@;
        let ghost v0 = old(self)@;
        let nxt = self.nodes[cur].unwrap().next;
        proof {
            assert(nxt == old(self).link_to(k + 1));
        }
        match prev {
            None => {
                self.head = nxt;
            },
            Some(p) => {
                proof {
                    assert(ns[p as int] is Some);
                    assert(p != cur);
                }
                let mut pn = self.nodes[p].unwrap();
                pn.next = nxt;
                self.nodes[p] = Some(pn);
            },
        }
        self.nodes[cur] = None;
        proof {
            assert forall|i: int| 0 <= i < fr.len() implies fr[i] != cur by {
                assert(ns[fr[i] as int] is None);
            }
        }
        self.free.push(cur);
        self.order = Ghost(ord.remove(k));
        proof {
            let ord2 = self.order@;
            let ns2 = self.nodes@;
            let fr2 = self.free@;
            ord.remove_ensures(k);
            assert forall|i: int, j: int|
                0 <= i < ord2.len() && 0 <= j < ord2.len() && i != j implies ord2[i] != ord2[j] by {
                let i0 = if i < k { i } else { i + 1 };
                let j0 = if j < k { j } else { j + 1 };
                assert(ord2[i] == ord[i0]);
                assert(ord2[j] == ord[j0]);
            }
            assert forall|i: int, j: int|
                0 <= i < fr2.len() && 0 <= j < fr2.len() && i != j implies fr2[i] != fr2[j] by {
                if i < fr.len() && j < fr.len() {
                    assert(fr2[i] == fr[i]);
                    assert(fr2[j] == fr[j]);
                }
            }
            assert forall|i: int|
                0 <= i < ord2.len() implies (#[trigger] ord2[i]) < N && ns2[ord2[i] as int] is Some
                    && ns2[ord2[i] as int].unwrap().next == self.link_to(i + 1) by {
                if i < k - 1 {
                    assert(ord2[i] == ord[i]);
                    assert(ord[i] != ord[k - 1]);
                    assert(ord[i] != cur);
                    assert(ns2[ord2[i] as int] == ns[ord[i] as int]);
                    assert(ord2[i + 1] == ord[i + 1]);
                } else if i == k - 1 {
                    assert(ord2[i] == ord[i]);
                    if k < ord2.len() {
                        assert(ord2[k] == ord[k + 1]);
                    }
                } else {
                    assert(ord2[i] == ord[i + 1]);
                    assert(ord[i + 1] != cur);
                    if k > 0 {
                        assert(ord[i + 1] != ord[k - 1]);
                    }
                    assert(ns2[ord2[i] as int] == ns[ord[i + 1] as int]);
                    if i + 1 < ord2.len() {
                        assert(ord2[i + 1] == ord[i + 2]);
                    }
                }
            }
            assert forall|i: int|
                0 <= i < fr2.len() implies (#[trigger] fr2[i]) < N && ns2[fr2[i] as int] is None by {
                if i < fr.len() {
                    assert(fr2[i] == fr[i]);
                    assert(ns[fr[i] as int] is None);
                    assert(fr[i] != cur);
                    if k > 0 {
                        assert(ns[ord[k - 1] as int] is Some);
                        assert(fr[i] != ord[k - 1]);
                    }
                } else {
                    assert(fr2[i] == cur);
                }
            }
            assert(self.wf());
            v0.remove_ensures(k);
            assert forall|i: int| 0 <= i < ord2.len() implies self@[i] == v0.remove(k)[i] by {
                if k > 0 {
                    assert(ord2[k - 1] == ord[k - 1]);
                }
                if i < k {
                    assert(ord2[i] == ord[i]);
                    assert(ord[i] != cur);
                    assert(ns2[ord[i] as int].unwrap().data == ns[ord[i] as int].unwrap().data);
                    assert(v0[i] == ns[ord[i] as int].unwrap().data);
                } else {
                    assert(ord2[i] == ord[i + 1]);
                    assert(ord[i + 1] != cur);
                    if k > 0 {
                        assert(ord[i + 1] != ord[k - 1]);
                    }
                    assert(v0.remove(k)[i] == v0[i + 1]);
                    assert(ns2[ord[i + 1] as int].unwrap().data == ns[ord[i + 1] as int].unwrap().data);
                }
            }
            assert(self@ =~= v0.remove(k));
        }
    }

    /// Walks the chain for the first slot whose value matches `data`,
    /// returning its predecessor's slot index, its own slot index, and
    /// its rank; `None` when no value matches.
    fn find_value_slot(&self, data: T) -> (r: Option<(Option<usize>, usize, Ghost<int>)>)
        requires
            self.wf(),
            T::obeys_eq_spec(),
        ensures
            match r {
                Some(pck) => {
                    &&& has_value(self@, data)
                    &&& pck.2@ == first_index_of(self@, data)
                    &&& 0 <= pck.2@ < self.order@.len()
                    &&& pck.1 == self.order@[pck.2@]
                    &&& pck.0 == (if pck.2@ == 0 {
                        None::<usize>
                    } else {
                        Some(self.order@[pck.2@ - 1])
                    })
                },
                None => !has_value(self@, data),
            },
    {
        let mut cur: usize;
        match self.head {
            None => {
                return None;
            },
            Some(h) => {
                cur = h;
            },
        }
        let mut prev: Option<usize> = None;
        let mut k: usize = 0;
        loop
            invariant
                self.wf(),
                T::obeys_eq_spec(),
                (k as int) < self.order@.len(),
                cur == self.order@[k as int],
                prev == (if k == 0 {
                    None::<usize>
                } else {
                    Some(self.order@[k as int - 1])
                }),
                forall|j: int| 0 <= j < k ==> !value_eq(self@[j], data),
            decreases self.order@.len() - k,
        {
            let nd = self.nodes[cur].unwrap();
            proof {
                assert(self@[k as int] == nd.data);
            }
            if nd.data == data {
                proof {
                    lemma_first_index_of_matches(self@, data, k as int);
                }
                return Some((prev, cur, Ghost(k as int)));
            }
            match nd.next {
                None => {
                    return None;
                },
                Some(nx) => {
                    prev = Some(cur);
                    cur = nx;
                    k += 1;
                },
            }
        }
    }

    /// Inserts `data` at the tail of the list.  Returns `true` on
    /// success, `false` when the list is full — in which case nothing
    /// changes.
    pub fn insert(&mut self, data: T) -> (r: bool)
        requires
            old(self).wf(),
        ensures
            final(self).wf(),
            r == (old(self)@.len() < N),
            r ==> final(self)@ == old(self)@.push(data),
            !r ==> *final(self) == *old(self),
    {
        let ghost k = old(self).order@.len() as int;
        let prev: Option<usize> = match self.head {
            None => None,
            Some(_) => Some(self.last_slot()),
        };
        let r = self.link_at(prev, data, Ghost(k));
        proof {
            assert(old(self)@.insert(k, data) =~= old(self)@.push(data));
        }
        r
    }

    /// Inserts `data` so that it occupies rank `index` afterwards; rank
    /// equal to the current length appends at the tail.  Returns `false`,
    /// changing nothing, when `index` is greater than the current length
    /// or the list is full.
    pub fn insert_at_index(&mut self, index: usize, data: T) -> (r: bool)
        requires
            old(self).wf(),
        ensures
            final(self).wf(),
            r == ((index as int) <= old(self)@.len() && old(self)@.len() < N),
            r ==> final(self)@ == old(self)@.insert(index as int, data),
            !r ==> *final(self) == *old(self),
    {
        if index == 0 {
            self.link_at(None, data, Ghost(0))
        } else {
            match self.rank_slot(index - 1) {
                None => false,
                Some((_, cur)) => self.link_at(Some(cur), data, Ghost(index as int)),
            }
        }
    }

    /// Deletes the first element whose value matches `data`, returning
    /// its slot to the free stack.  Returns `false`, changing nothing,
    /// when no value matches.
    pub fn delete_element(&mut self, data: T) -> (r: bool)
        requires
            old(self).wf(),
            T::obeys_eq_spec(),
        ensures
            final(self).wf(),
            r == has_value(old(self)@, data),
            r ==> final(self)@ == old(self)@.remove(first_index_of(old(self)@, data)),
            !r ==> *final(self) == *old(self),
    {
        match self.find_value_slot(data) {
            None => false,
            Some((prev, cur, k)) => {
                self.unlink_at(prev, cur, k);
                true
            },
        }
    }

    /// Deletes the element at rank `index`, returning its slot to the
    /// free stack.  Returns `false`, changing nothing, when `index` is
    /// out of range.
    pub fn delete_at_index(&mut self, index: usize) -> (r: bool)
        requires
            old(self).wf(),
        ensures
            final(self).wf(),
            r == ((index as int) < old(self)@.len()),
            r ==> final(self)@ == old(self)@.remove(index as int),
            !r ==> *final(self) == *old(self),
    {
        match self.rank_slot(index) {
            None => false,
            Some((prev, cur)) => {
                self.unlink_at(prev, cur, Ghost(index as int));
                true
            },
        }
    }

    /// Overwrites the value of the first element matching `old_data`
    /// with `new_data`, in place.  Returns `false`, changing nothing,
    /// when no value matches.
    pub fn update_element(&mut self, old_data: T, new_data: T) -> (r: bool)
        requires
            old(self).wf(),
            T::obeys_eq_spec(),
        ensures
            final(self).wf(),
            r == has_value(old(self)@, old_data),
            r ==> final(self)@ == old(self)@.update(
                first_index_of(old(self)@, old_data),
                new_data,
            ),
            !r ==> *final(self) == *old(self),
    {
        match self.find_value_slot(old_data) {
            None => false,
            Some((_, cur, k)) => {
                self.write_slot(cur, new_data, k);
                true
            },
        }
    }

    /// Overwrites the value at rank `index` with `data`, in place.
    /// Returns `false`, changing nothing, when `index` is out of range.
    pub fn update_at_index(&mut self, index: usize, data: T) -> (r: bool)
        requires
            old(self).wf(),
        ensures
            final(self).wf(),
            r == ((index as int) < old(self)@.len()),
            r ==> final(self)@ == old(self)@.update(index as int, data),
            !r ==> *final(self) == *old(self),
    {
        match self.rank_slot(index) {
            None => false,
            Some((_, cur)) => {
                self.write_slot(cur, data, Ghost(index as int));
                true
            },
        }
    }

    /// Overwrites the value of the occupied slot `cur`, which sits at
    /// rank `k`, leaving the chain untouched.
    fn write_slot(&mut self, cur: usize, data: T, Ghost(k): Ghost<int>)
        requires
            old(self).wf(),
            0 <= k < old(self).order@.len(),
            cur == old(self).order@[k],
        ensures
            final(self).wf(),
            final(self)@ == old(self)@.update(k, data),
    {
        let ghost ord = old(self).order@;
        let ghost ns = old(self).nodes@;
        let ghost v0 = old(self)@;
        let mut nd = self.nodes[cur].unwrap();
        nd.data = data;
        self.nodes[cur] = Some(nd);
        proof {
            let ns2 = self.nodes@;
            assert forall|i: int|
                0 <= i < ord.len() implies (#[trigger] ord[i]) < N && ns2[ord[i] as int] is Some
                    && ns2[ord[i] as int].unwrap().next == self.link_to(i + 1) by {
                assert(ns[ord[i] as int] is Some);
                if ord[i] != cur {
                    assert(ns2[ord[i] as int] == ns[ord[i] as int]);
                }
            }
            assert forall|i: int|
                0 <= i < self.free@.len() implies (#[trigger] self.free@[i]) < N
                    && ns2[self.free@[i] as int] is None by {
                assert(ns[self.free@[i] as int] is None);
                assert(self.free@[i] != cur);
            }
            assert(self.wf());
            assert forall|i: int| 0 <= i < ord.len() implies self@[i] == v0.update(k, data)[i] by {
                if i != k {
                    assert(ord[i] != cur);
                    assert(ns2[ord[i] as int].unwrap().data == ns[ord[i] as int].unwrap().data);
                    assert(v0[i] == ns[ord[i] as int].unwrap().data);
                }
            }
            assert(self@ =~= v0.update(k, data));
        }
    }

    /// Checks whether some element's value matches `data`.  Does not
    /// mutate the list.
    pub fn find(&self, data: T) -> (r: bool)
        requires
            self.wf(),
            T::obeys_eq_spec(),
        ensures
            r == has_value(self@, data),
    {
        match self.find_value_slot(data) {
            None => false,
            Some(_) => true,
        }
    }

    /// Retrieves the value at rank `i`, or `None` when `i` is out of
    /// range.  Does not mutate the list.
    pub fn get(&self, i: usize) -> (r: Option<T>)
        requires
            self.wf(),
        ensures
            r == (if (i as int) < self@.len() {
                Some(self@[i as int])
            } else {
                None::<T>
            }),
    {
        match self.rank_slot(i) {
            None => None,
            Some((_, cur)) => Some(self.nodes[cur].unwrap().data),
        }
    }
}

} // verus!
