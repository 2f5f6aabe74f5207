//! A pointer-based singly linked list with unbounded growth.
//!
//! Each node owns the next through a `Box`; the list owns the head node.
//! All operations recurse along that ownership chain.  Contracts speak of
//! the view `self@`, the sequence of stored values from the head, given
//! node by node by [`opt_seq`].

use crate::search::{first_index_of, has_value};
use crate::search::{lemma_first_index_of_in_range, lemma_value_search_cons};
use vstd::prelude::*;
use vstd::std_specs::cmp::PartialEqSpec;

verus! {

/// One node of the list: a value and the rest of the chain.
#[derive(Debug)]
pub struct Node<T> {
    pub data: T,
    pub next: Option<Box<Node<T>>>,
}

/// A heap-allocated singly linked list.
#[derive(Debug)]
pub struct DynamicList<T> {
    head: Option<Box<Node<T>>>,
}

/// The values stored in the chain hanging off `node`, in traversal order.
pub open spec fn opt_seq<T>(node: Option<Box<Node<T>>>) -> Seq<T>
    decreases node,
{
    match node {
        None => Seq::empty(),
        Some(n) => seq![n.data] + opt_seq(n.next),
    }
}

impl<T> View for DynamicList<T> {
    type V = Seq<T>;

    /// The stored values in traversal order from the head.
    closed spec fn view(&self) -> Seq<T> {
        opt_seq(self.head)
    }
}

impl<T: PartialEq + Copy> DynamicList<T> {
    /// Creates a new empty list.
    pub fn new() -> (r: Self)
        ensures
            r@ == Seq::<T>::empty(),
    {
        DynamicList { head: None }
    }

    /// Appends `data` at the tail of the list.
    pub fn insert(&mut self, data: T)
        ensures
            final(self)@ == old(self)@.push(data),
    {
        Self::push_back_rec(&mut self.head, data);
    }

    fn push_back_rec(node: &mut Option<Box<Node<T>>>, data: T)
        ensures
            opt_seq(*final(node)) == opt_seq(*old(node)).push(data),
        decreases *old(node),
    {
        match node.take() {
            None => {
                *node = Some(Box::new(Node { data, next: None }));
                proof {
                    assert(opt_seq(*node) =~= opt_seq(*old(node)).push(data));
                }
            },
            Some(mut n) => {
                Self::push_back_rec(&mut n.next, data);
                let rest = Ghost(opt_seq(n.next));
                *node = Some(n);
                proof {
                    assert(opt_seq(*node) == seq![n.data] + rest@);
                    assert(opt_seq(*node) =~= opt_seq(*old(node)).push(data));
                }
            },
        }
    }

    /// Retrieves the value at rank `index`, or `None` when `index` is out
    /// of range.
    pub fn get(&self, index: usize) -> (r: Option<T>)
        ensures
            r == (if (index as int) < self@.len() {
                Some(self@[index as int])
            } else {
                None::<T>
            }),
    {
        Self::get_rec(&self.head, index)
    }

    /// Deletes the first node whose value matches `data`.  Returns
    /// `false`, changing nothing, when no value matches.
    pub fn delete_element(&mut self, data: T) -> (r: bool)
        requires
            T::obeys_eq_spec(),
        ensures
            r == has_value(old(self)@, data),
            r ==> final(self)@ == old(self)@.remove(first_index_of(old(self)@, data)),
            !r ==> *final(self) == *old(self),
    {
        Self::delete_value_rec(&mut self.head, data)
    }

    fn delete_value_rec(node: &mut Option<Box<Node<T>>>, data: T) -> (r: bool)
        requires
            T::obeys_eq_spec(),
        ensures
            r == has_value(opt_seq(*old(node)), data),
            r ==> opt_seq(*final(node)) == opt_seq(*old(node)).remove(
                first_index_of(opt_seq(*old(node)), data),
            ),
            !r ==> *final(node) == *old(node),
        decreases *old(node),
    {
        match node.take() {
            None => false,
            Some(mut n) => {
                let ghost c = opt_seq(*old(node));
                let ghost rest0 = opt_seq(n.next);
                proof {
                    lemma_value_search_cons(n.data, rest0, data);
                }
                if n.data == data {
                    *node = n.next;
                    proof {
                        assert(opt_seq(*node) =~= c.remove(0));
                    }
                    true
                } else {
                    let r = Self::delete_value_rec(&mut n.next, data);
                    *node = Some(n);
                    proof {
                        if r {
                            let fi = first_index_of(rest0, data);
                            lemma_first_index_of_in_range(rest0, data);
                            rest0.remove_ensures(fi);
                            c.remove_ensures(1 + fi);
                            assert(opt_seq(*node) =~= c.remove(1 + fi));
                        }
                    }
                    r
                }
            },
        }
    }

    /// Inserts `data` so that it occupies rank `index` afterwards; rank
    /// equal to the current length appends at the tail.  Returns `false`,
    /// changing nothing, when `index` is greater than the current length.
    pub fn insert_at_index(&mut self, index: usize, data: T) -> (r: bool)
        ensures
            r == ((index as int) <= old(self)@.len()),
            r ==> final(self)@ == old(self)@.insert(index as int, data),
            !r ==> *final(self) == *old(self),
    {
        Self::insert_rec(&mut self.head, index, data)
    }

    fn insert_rec(node: &mut Option<Box<Node<T>>>, index: usize, data: T) -> (r: bool)
        ensures
            r == ((index as int) <= opt_seq(*old(node)).len()),
            r ==> opt_seq(*final(node)) == opt_seq(*old(node)).insert(index as int, data),
            !r ==> *final(node) == *old(node),
        decreases *old(node),
    {
        if index == 0 {
            let rest = node.take();
            *node = Some(Box::new(Node { data, next: rest }));
            proof {
                assert(opt_seq(*node) =~= opt_seq(*old(node)).insert(0, data));
            }
            true
        } else {
            match node.take() {
                None => false,
                Some(mut n) => {
                    let ghost c = opt_seq(*old(node));
                    let ghost rest0 = opt_seq(n.next);
                    let r = Self::insert_rec(&mut n.next, index - 1, data);
                    *node = Some(n);
                    proof {
                        if r {
                            rest0.insert_ensures(index - 1, data);
                            c.insert_ensures(index as int, data);
                            assert(opt_seq(*node) =~= c.insert(index as int, data));
                        }
                    }
                    r
                },
            }
        }
    }

    /// Deletes the node at rank `index`.  Returns `false`, changing
    /// nothing, when `index` is out of range.
    pub fn delete_at_index(&mut self, index: usize) -> (r: bool)
        ensures
            r == ((index as int) < old(self)@.len()),
            r ==> final(self)@ == old(self)@.remove(index as int),
            !r ==> *final(self) == *old(self),
    {
        Self::delete_rec(&mut self.head, index)
    }

    fn delete_rec(node: &mut Option<Box<Node<T>>>, index: usize) -> (r: bool)
        ensures
            r == ((index as int) < opt_seq(*old(node)).len()),
            r ==> opt_seq(*final(node)) == opt_seq(*old(node)).remove(index as int),
            !r ==> *final(node) == *old(node),
        decreases *old(node),
    {
        match node.take() {
            None => false,
            Some(mut n) => {
                let ghost c = opt_seq(*old(node));
                if index == 0 {
                    *node = n.next;
                    proof {
                        assert(opt_seq(*node) =~= c.remove(0));
                    }
                    true
                } else {
                    let ghost rest0 = opt_seq(n.next);
                    let r = Self::delete_rec(&mut n.next, index - 1);
                    *node = Some(n);
                    proof {
                        if r {
                            rest0.remove_ensures(index - 1);
                            c.remove_ensures(index as int);
                            assert(opt_seq(*node) =~= c.remove(index as int));
                        }
                    }
                    r
                }
            },
        }
    }

    /// Overwrites the value of the first node matching `old_data` with
    /// `new_data`, in place.  Returns `false`, changing nothing, when no
    /// value matches.
    pub fn update_element(&mut self, old_data: T, new_data: T) -> (r: bool)
        requires
            T::obeys_eq_spec(),
        ensures
            r == has_value(old(self)@, old_data),
            r ==> final(self)@ == old(self)@.update(
                first_index_of(old(self)@, old_data),
                new_data,
            ),
            !r ==> *final(self) == *old(self),
    {
        Self::update_value_rec(&mut self.head, old_data, new_data)
    }

    fn update_value_rec(node: &mut Option<Box<Node<T>>>, old_data: T, new_data: T) -> (r: bool)
        requires
            T::obeys_eq_spec(),
        ensures
            r == has_value(opt_seq(*old(node)), old_data),
            r ==> opt_seq(*final(node)) == opt_seq(*old(node)).update(
                first_index_of(opt_seq(*old(node)), old_data),
                new_data,
            ),
            !r ==> *final(node) == *old(node),
        decreases *old(node),
    {
        match node.take() {
            None => false,
            Some(mut n) => {
                let ghost c = opt_seq(*old(node));
                let ghost rest0 = opt_seq(n.next);
                proof {
                    lemma_value_search_cons(n.data, rest0, old_data);
                }
                if n.data == old_data {
                    n.data = new_data;
                    *node = Some(n);
                    proof {
                        assert(opt_seq(*node) =~= c.update(0, new_data));
                    }
                    true
                } else {
                    let r = Self::update_value_rec(&mut n.next, old_data, new_data);
                    *node = Some(n);
                    proof {
                        if r {
                            let fi = first_index_of(rest0, old_data);
                            lemma_first_index_of_in_range(rest0, old_data);
                            assert(opt_seq(*node) =~= c.update(1 + fi, new_data));
                        }
                    }
                    r
                }
            },
        }
    }

    /// Overwrites the value at rank `index` with `data`, in place.
    /// Returns `false`, changing nothing, when `index` is out of range.
    pub fn update_at_index(&mut self, index: usize, data: T) -> (r: bool)
        ensures
            r == ((index as int) < old(self)@.len()),
            r ==> final(self)@ == old(self)@.update(index as int, data),
            !r ==> *final(self) == *old(self),
    {
        Self::update_rec(&mut self.head, index, data)
    }

    fn update_rec(node: &mut Option<Box<Node<T>>>, index: usize, data: T) -> (r: bool)
        ensures
            r == ((index as int) < opt_seq(*old(node)).len()),
            r ==> opt_seq(*final(node)) == opt_seq(*old(node)).update(index as int, data),
            !r ==> *final(node) == *old(node),
        decreases *old(node),
    {
        match node.take() {
            None => false,
            Some(mut n) => {
                let ghost c = opt_seq(*old(node));
                if index == 0 {
                    n.data = data;
                    *node = Some(n);
                    proof {
                        assert(opt_seq(*node) =~= c.update(0, data));
                    }
                    true
                } else {
                    let r = Self::update_rec(&mut n.next, index - 1, data);
                    *node = Some(n);
                    proof {
                        if r {
                            assert(opt_seq(*node) =~= c.update(index as int, data));
                        }
                    }
                    r
                }
            },
        }
    }

    /// Checks whether some node's value matches `data`.  Does not mutate
    /// the list.
    pub fn find(&self, data: T) -> (r: bool)
        requires
            T::obeys_eq_spec(),
        ensures
            r == has_value(self@, data),
    {
        Self::find_rec(&self.head, data)
    }

    fn find_rec(node: &Option<Box<Node<T>>>, data: T) -> (r: bool)
        requires
            T::obeys_eq_spec(),
        ensures
            r == has_value(opt_seq(*node), data),
        decreases *node,
    {
        match node {
            None => false,
            Some(n) => {
                proof {
                    lemma_value_search_cons(n.data, opt_seq(n.next), data);
                }
                if n.data == data {
                    true
                } else {
                    Self::find_rec(&n.next, data)
                }
            },
        }
    }

    fn get_rec(node: &Option<Box<Node<T>>>, index: usize) -> (r: Option<T>)
        ensures
            r == (if (index as int) < opt_seq(*node).len() {
                Some(opt_seq(*node)[index as int])
            } else {
                None::<T>
            }),
        decreases *node,
    {
        match node {
            None => None,
            Some(n) => {
                if index == 0 {
                    Some(n.data)
                } else {
                    Self::get_rec(&n.next, index - 1)
                }
            },
        }
    }
}

} // verus!
