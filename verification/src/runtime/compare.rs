//! Equality of values, and the operations of a dictionary whose keys are
//! values that are forced first.

use vstd::prelude::*;
use crate::runtime::dictionary::{entries, Dictionary};
use crate::runtime::error::Error;
use crate::runtime::key::Key;
use crate::runtime::semantics::{
    delete, equal, equal_entries, equal_lists, equal_normal, find, insert,
};
use crate::runtime::value::{List, Normal, Value};

verus! {

impl Value {
    /// Whether this value and `other` are equal. Both are forced.
    pub fn equal(&self, other: &Value, fuel: usize) -> (r: Result<bool, Error>)
        ensures
            r == equal(*self, *other, fuel as nat),
        decreases fuel, 9nat, 0nat,
    {
        match self.force(fuel) {
            Err(e) => Err(e),
            Ok(x) => match other.force(fuel) {
                Err(e) => Err(e),
                Ok(y) => x.equal(&y, fuel),
            },
        }
    }
}

impl Normal {
    /// Whether this normal form and `other` are equal.
    pub fn equal(&self, other: &Normal, fuel: usize) -> (r: Result<bool, Error>)
        ensures
            r == equal_normal(*self, *other, fuel as nat),
        decreases fuel, 8nat, 0nat,
    {
        match self {
            Normal::Nil => match other {
                Normal::Nil => Ok(true),
                _ => Ok(false),
            },
            Normal::Number(n) => match other {
                Normal::Number(m) => Ok(n.equal(m)),
                _ => Ok(false),
            },
            Normal::Boolean(b) => match other {
                Normal::Boolean(c) => Ok(*b == *c),
                _ => Ok(false),
            },
            Normal::String(s) => match other {
                Normal::String(t) => Ok(*s == *t),
                _ => Ok(false),
            },
            Normal::List(l) => match other {
                Normal::List(m) => l.equal(m, fuel),
                _ => Ok(false),
            },
            Normal::Dictionary(d) => match other {
                Normal::Dictionary(e) => d.equal(e, fuel),
                _ => Ok(false),
            },
            Normal::Function(f) => match other {
                Normal::Function(g) => Ok(f.same(g)),
                _ => Ok(false),
            },
        }
    }
}

impl List {
    /// Whether this list and `other` have equal elements in the same order.
    /// The comparison stops at the first difference, so that what follows it
    /// is not forced.
    pub fn equal(&self, other: &List, fuel: usize) -> (r: Result<bool, Error>)
        ensures
            r == equal_lists(*self, *other, fuel as nat),
        decreases fuel, 7nat, 0nat,
    {
        let mut l: List = self.clone();
        let mut m: List = other.clone();
        let mut left: usize = fuel;
        loop
            invariant
                left <= fuel,
                equal_lists(*self, *other, fuel as nat) == equal_lists(l, m, left as nat),
            decreases left,
        {
            match l {
                List::Empty => {
                    return Ok(m.is_empty());
                },
                List::Cons(c) => match m {
                    List::Empty => {
                        return Ok(false);
                    },
                    List::Cons(d) => {
                        if left == 0 {
                            return Err(Error::CyclicForce);
                        }
                        match c.head.equal(&d.head, left - 1) {
                            Err(e) => {
                                return Err(e);
                            },
                            Ok(false) => {
                                return Ok(false);
                            },
                            Ok(true) => {},
                        }
                        let t = match c.tail.list(left - 1) {
                            Err(e) => {
                                return Err(e);
                            },
                            Ok(t) => t,
                        };
                        let u = match d.tail.list(left - 1) {
                            Err(e) => {
                                return Err(e);
                            },
                            Ok(u) => u,
                        };
                        l = t;
                        m = u;
                        left = left - 1;
                    },
                },
            }
        }
    }
}

impl Dictionary {
    /// Whether this dictionary and `other` have the same size and, under
    /// each key of this one, equal values.
    pub fn equal(&self, other: &Dictionary, fuel: usize) -> (r: Result<bool, Error>)
        ensures
            r == equal_normal(
                Normal::Dictionary(*self),
                Normal::Dictionary(*other),
                fuel as nat,
            ),
        decreases fuel, 7nat, 0nat,
    {
        if self.size() != other.size() {
            return Ok(false);
        }
        let es = self.entries();
        let mut i: usize = 0;
        proof {
            assert(es@.take(0) =~= Seq::<(Key, Value)>::empty());
        }
        while i < es.len()
            invariant
                i <= es@.len(),
                es@ == entries(*self),
                crate::runtime::dictionary::size(*self) == crate::runtime::dictionary::size(*other),
                equal_entries(es@.take(i as int), *other, fuel as nat) == Ok::<bool, Error>(true),
            decreases es@.len() - i,
        {
            let ghost done = es@.take(i + 1);
            proof {
                assert(done.drop_last() =~= es@.take(i as int));
                assert(done.last() == es@[i as int]);
            }
            match other.strict_find(&es[i].0) {
                None => {
                    proof {
                        Self::lemma_stops(es@, done, *other, fuel as nat);
                    }
                    return Ok(false);
                },
                Some(w) => {
                    if fuel == 0 {
                        proof {
                            Self::lemma_stops(es@, done, *other, fuel as nat);
                        }
                        return Err(Error::CyclicForce);
                    }
                    match es[i].1.equal(&w, fuel - 1) {
                        Err(e) => {
                            proof {
                                Self::lemma_stops(es@, done, *other, fuel as nat);
                            }
                            return Err(e);
                        },
                        Ok(false) => {
                            proof {
                                Self::lemma_stops(es@, done, *other, fuel as nat);
                            }
                            return Ok(false);
                        },
                        Ok(true) => {},
                    }
                },
            }
            i = i + 1;
        }
        proof {
            assert(es@.take(es@.len() as int) =~= es@);
        }
        Ok(true)
    }

    /// A comparison that has stopped on some of the leading entries has
    /// stopped, with the same outcome, on all of them.
    proof fn lemma_stops(es: Seq<(Key, Value)>, done: Seq<(Key, Value)>, other: Dictionary, fuel: nat)
        requires
            done.len() <= es.len(),
            done == es.take(done.len() as int),
            equal_entries(done, other, fuel) != Ok::<bool, Error>(true),
        ensures
            equal_entries(es, other, fuel) == equal_entries(done, other, fuel),
        decreases es.len(),
    {
        if done.len() < es.len() {
            assert(es.drop_last().take(done.len() as int) =~= done);
            Self::lemma_stops(es.drop_last(), done, other, fuel);
        } else {
            assert(es.take(es.len() as int) =~= es);
        }
    }

    /// This dictionary with `v` under the key that `k` forces to. A value
    /// that cannot be a key is rejected.
    pub fn insert(&self, k: Value, v: Value, fuel: usize) -> (r: Result<Dictionary, Error>)
        ensures
            r == insert(*self, k, v, fuel as nat),
    {
        match k.pured(fuel) {
            Err(e) => Err(e),
            Ok(key) => Ok(self.strict_insert(key, v)),
        }
    }

    /// The value under the key that `k` forces to, or `KeyNotFound` with
    /// that key.
    pub fn find(&self, k: Value, fuel: usize) -> (r: Result<Value, Error>)
        ensures
            r == find(*self, k, fuel as nat),
    {
        match k.pured(fuel) {
            Err(e) => Err(e),
            Ok(key) => match self.strict_find(&key) {
                Some(v) => Ok(v),
                None => Err(Error::KeyNotFound(key)),
            },
        }
    }

    /// This dictionary without the entry under the key that `k` forces to,
    /// or `KeyNotFound` with that key.
    pub fn delete(&self, k: Value, fuel: usize) -> (r: Result<Dictionary, Error>)
        ensures
            r == delete(*self, k, fuel as nat),
    {
        match k.pured(fuel) {
            Err(e) => Err(e),
            Ok(key) => match self.strict_delete(&key) {
                Some(d) => Ok(d),
                None => Err(Error::KeyNotFound(key)),
            },
        }
    }
}

} // verus!
