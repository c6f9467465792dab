//! The persistent list: building lists and taking their first element.

use std::sync::Arc;
use vstd::prelude::*;
use crate::runtime::error::{Error, ValueError};
use crate::runtime::value::{cons, normal, Cell, List, Normal, Value};

verus! {

/// `tail` with the values `vs` in front of it, in their order. With no
/// values it is `tail` itself.
pub open spec fn prepend(vs: Seq<Value>, tail: Value) -> Value
    decreases vs.len(),
{
    if vs.len() == 0 {
        tail
    } else {
        normal(Normal::List(cons(vs[0], prepend(vs.skip(1), tail))))
    }
}

/// The list of the values `vs`.
pub open spec fn list_of(vs: Seq<Value>) -> List
    decreases vs.len(),
{
    if vs.len() == 0 {
        List::Empty
    } else {
        cons(vs[0], normal(Normal::List(list_of(vs.skip(1)))))
    }
}

/// A list of given values is those values in front of the empty list.
pub proof fn lemma_list_of(vs: Seq<Value>)
    ensures
        prepend(vs, normal(Normal::List(List::Empty))) == normal(Normal::List(list_of(vs))),
    decreases vs.len(),
{
    if vs.len() > 0 {
        lemma_list_of(vs.skip(1));
    }
}

/// Putting `a` and then `b` in front is putting their concatenation in
/// front.
pub proof fn law_prepend_concat(a: Seq<Value>, b: Seq<Value>, tail: Value)
    ensures
        prepend(a, prepend(b, tail)) == prepend(a + b, tail),
    decreases a.len(),
{
    if a.len() == 0 {
        assert(a + b =~= b);
    } else {
        law_prepend_concat(a.skip(1), b, tail);
        assert((a + b).skip(1) =~= a.skip(1) + b);
    }
}

impl List {
    /// The list of the given values, in their order.
    pub fn new(vs: &[Value]) -> (r: List)
        ensures
            r == list_of(vs@),
    {
        let mut l: List = List::Empty;
        let mut i: usize = vs.len();
        proof {
            assert(vs@.skip(i as int) =~= Seq::<Value>::empty());
        }
        while i > 0
            invariant
                i <= vs.len(),
                l == list_of(vs@.skip(i as int)),
            decreases i,
        {
            i = i - 1;
            proof {
                assert(vs@.skip(i as int).skip(1) =~= vs@.skip(i + 1));
            }
            l = List::cons(vs[i].clone(), Value::Normal(Normal::List(l)));
        }
        proof {
            assert(vs@.skip(0) =~= vs@);
        }
        l
    }

    /// The list with `head` in front of `tail`. Neither is looked into, and
    /// `tail` is shared, not copied.
    pub fn cons(head: Value, tail: Value) -> (r: List)
        ensures
            r == cons(head, tail),
    {
        List::Cons(Arc::new(Cell { head, tail }))
    }

    pub fn is_empty(&self) -> (r: bool)
        ensures
            r == (*self == List::Empty),
    {
        match self {
            List::Empty => true,
            List::Cons(_) => false,
        }
    }

    /// The first element, or `EmptyList` for the empty list.
    pub fn first(&self) -> (r: Result<Value, Error>)
        ensures
            r == first(*self),
    {
        match self {
            List::Empty => Err(Error::Value(ValueError::EmptyList)),
            List::Cons(c) => Ok(c.head.clone()),
        }
    }

    /// `tail` with the given values in front of it, in their order. The tail
    /// is shared and not looked into.
    pub fn strict_prepend(vs: &[Value], tail: Value) -> (r: Value)
        ensures
            r == prepend(vs@, tail),
    {
        let mut l: Value = tail;
        let mut i: usize = vs.len();
        proof {
            assert(vs@.skip(i as int) =~= Seq::<Value>::empty());
        }
        while i > 0
            invariant
                i <= vs.len(),
                l == prepend(vs@.skip(i as int), tail),
            decreases i,
        {
            i = i - 1;
            proof {
                assert(vs@.skip(i as int).skip(1) =~= vs@.skip(i + 1));
            }
            l = Value::Normal(Normal::List(List::cons(vs[i].clone(), l)));
        }
        proof {
            assert(vs@.skip(0) =~= vs@);
        }
        l
    }
}

/// The first element of a list, or the error for the empty list.
pub open spec fn first(l: List) -> Result<Value, Error> {
    match l {
        List::Empty => Err(Error::Value(ValueError::EmptyList)),
        List::Cons(c) => Ok(c.head),
    }
}

} // verus!
