//! A bucket: the entries of a dictionary whose keys have one hash, one
//! behind the other. Keys of different identity seldom have one hash, so a
//! bucket is short; a key is found in it by a walk.

use std::sync::Arc;
use vstd::prelude::*;
use crate::runtime::key::{Key, KeyView};
use crate::runtime::value::{share, Value};

verus! {

/// Entries with different keys, one behind the other. Every operation that
/// changes a bucket returns a new one and leaves the old one as it was; the
/// two share what they have in common.
#[derive(Debug)]
pub enum Bucket {
    Empty,
    Entry(Arc<Node>),
}

/// One entry in front of the remaining entries, none of which has its key.
#[derive(Debug)]
pub struct Node {
    key: Key,
    value: Value,
    rest: Bucket,
    size: usize,
}

impl View for Bucket {
    type V = Map<KeyView, Value>;

    /// The map that the bucket stands for.
    closed spec fn view(&self) -> Map<KeyView, Value>
        decreases self,
    {
        match *self {
            Bucket::Empty => Map::empty(),
            Bucket::Entry(n) => n.rest.view().insert(n.key@, n.value),
        }
    }
}

/// The entries of a bucket in the order in which a walk meets them.
pub closed spec fn entries(d: Bucket) -> Seq<(Key, Value)>
    decreases d,
{
    match d {
        Bucket::Empty => Seq::empty(),
        Bucket::Entry(n) => seq![(n.key, n.value)] + entries(n.rest),
    }
}

/// The number of entries of `d`, held at the largest `usize`.
pub closed spec fn size(d: Bucket) -> usize {
    if entries(d).len() <= usize::MAX {
        entries(d).len() as usize
    } else {
        usize::MAX
    }
}

/// What `size` is.
pub proof fn law_size(d: Bucket)
    ensures
        size(d) as nat == if entries(d).len() <= usize::MAX {
            entries(d).len()
        } else {
            usize::MAX as nat
        },
{
}

/// The size that an entry in front of `rest` records: one more than the
/// entries behind it, held at the largest `usize`.
pub closed spec fn size_with(rest: Bucket) -> usize {
    if entries(rest).len() < usize::MAX {
        (entries(rest).len() + 1) as usize
    } else {
        usize::MAX
    }
}

/// `rest` with one entry in front of it.
pub closed spec fn entry(key: Key, value: Value, rest: Bucket) -> Bucket {
    Bucket::Entry(Arc::new(Node { key, value, rest, size: size_with(rest) }))
}

/// No key occurs twice, and every entry records its size.
pub closed spec fn well_formed(d: Bucket) -> bool
    decreases d,
{
    match d {
        Bucket::Empty => true,
        Bucket::Entry(n) => n.inv(),
    }
}

/// `d` without the entry under `k`, the other entries in their order.
pub closed spec fn without(d: Bucket, k: KeyView) -> Bucket
    decreases d,
{
    match d {
        Bucket::Empty => Bucket::Empty,
        Bucket::Entry(n) => if n.key@ == k {
            n.rest
        } else {
            entry(n.key, n.value, without(n.rest, k))
        },
    }
}

/// `d` with `v` under `k`: the new entry stands in front, and an earlier
/// entry under the same key is gone.
pub closed spec fn with(d: Bucket, k: Key, v: Value) -> Bucket {
    entry(k, v, without(d, k@))
}

/// The entries behind the first one.
spec fn rest_of(d: Bucket) -> Bucket {
    match d {
        Bucket::Empty => Bucket::Empty,
        Bucket::Entry(n) => n.rest,
    }
}

/// The key of the first entry.
spec fn key_of(d: Bucket) -> Key {
    match d {
        Bucket::Empty => Key::Nil,
        Bucket::Entry(n) => n.key,
    }
}

/// The first entry of a walk and the bucket of the entries after it.
pub closed spec fn first_rest(d: Bucket) -> Option<(Key, Value, Bucket)> {
    match d {
        Bucket::Empty => None,
        Bucket::Entry(n) => Some((n.key, n.value, n.rest)),
    }
}

impl Node {
    #[verifier::type_invariant]
    pub closed spec fn inv(self) -> bool
        decreases self,
    {
        &&& !self.rest@.contains_key(self.key@)
        &&& self.size == size_with(self.rest)
        &&& well_formed(self.rest)
    }
}

/// What an entry in front of `rest` is.
pub proof fn lemma_entry(key: Key, value: Value, rest: Bucket)
    ensures
        first_rest(entry(key, value, rest)) == Some((key, value, rest)),
        entry(key, value, rest)@ == rest@.insert(key@, value),
        entries(entry(key, value, rest)) == seq![(key, value)] + entries(rest),
        without(entry(key, value, rest), key@) == rest,
        well_formed(rest) && !rest@.contains_key(key@) ==> well_formed(entry(key, value, rest)),
{
}

/// A walk meets exactly the entries of the map, each key once.
pub proof fn law_entries(d: Bucket)
    requires
        well_formed(d),
    ensures
        d@.dom().finite(),
        d@.dom().len() == entries(d).len(),
        forall|i: int| 0 <= i < entries(d).len() ==> d@.contains_key(#[trigger] entries(d)[i].0@)
            && d@[entries(d)[i].0@] == entries(d)[i].1,
        forall|k: KeyView| d@.contains_key(k) ==> exists|i: int| 0 <= i < entries(d).len()
            && #[trigger] entries(d)[i].0@ == k,
        forall|i: int, j: int| 0 <= i < j < entries(d).len() ==> entries(d)[i].0@ != entries(d)[j].0@,
    decreases d,
{
    if let Some((key, value, rest)) = first_rest(d) {
        law_entries(rest);
        let es = entries(d);
        let rs = entries(rest);
        assert(es[0] == (key, value));
        assert forall|i: int| 1 <= i < es.len() implies es[i] == rs[i - 1] by {}
        assert forall|k: KeyView| d@.contains_key(k) implies exists|i: int| 0 <= i < es.len()
            && #[trigger] es[i].0@ == k by {
            if k == key@ {
                assert(es[0].0@ == k);
            } else {
                assert(rest@.contains_key(k));
                let j = choose|j: int| 0 <= j < rs.len() && #[trigger] rs[j].0@ == k;
                assert(es[j + 1].0@ == k);
            }
        }
        assert forall|i: int, j: int| 0 <= i < j < es.len() implies es[i].0@ != es[j].0@ by {
            assert(es[j] == rs[j - 1]);
            if i == 0 {
                assert(rest@.contains_key(rs[j - 1].0@));
            } else {
                assert(es[i] == rs[i - 1]);
            }
        }
        assert forall|i: int| 0 <= i < es.len() implies d@.contains_key(#[trigger] es[i].0@)
            && d@[es[i].0@] == es[i].1 by {
            if i > 0 {
                assert(es[i] == rs[i - 1]);
                assert(rest@.contains_key(rs[i - 1].0@));
            }
        }
        assert(d@.dom() =~= rest@.dom().insert(key@));
    }
}

/// What `without` does to the map and to the entries.
pub proof fn lemma_without(d: Bucket, k: KeyView)
    requires
        well_formed(d),
    ensures
        well_formed(without(d, k)),
        without(d, k)@ == d@.remove(k),
        !d@.contains_key(k) ==> without(d, k) == d,
        entries(without(d, k)).len() == if d@.contains_key(k) {
            entries(d).len() - 1
        } else {
            entries(d).len() as int
        },
    decreases d,
{
    if let Some((key, value, rest)) = first_rest(d) {
        lemma_without(rest, k);
        if key@ == k {
            assert(rest@ =~= d@.remove(k));
        } else {
            assert(without(d, k)@ =~= d@.remove(k));
            if !d@.contains_key(k) {
                assert(!rest@.contains_key(k));
                assert(d->Entry_0 == Node { key, value, rest, size: d->Entry_0.size });
            }
        }
    } else {
        assert(without(d, k)@ =~= d@.remove(k));
    }
}

/// What `with` does to the map.
pub proof fn lemma_with(d: Bucket, k: Key, v: Value)
    requires
        well_formed(d),
    ensures
        well_formed(with(d, k, v)),
        with(d, k, v) == entry(k, v, without(d, k@)),
        with(d, k, v)@ == d@.insert(k@, v),
        first_rest(with(d, k, v)) == Some((k, v, without(d, k@))),
        entries(with(d, k, v)).len() == if d@.contains_key(k@) {
            entries(d).len()
        } else {
            entries(d).len() + 1
        },
{
    lemma_without(d, k@);
    assert(with(d, k, v)@ =~= d@.insert(k@, v));
}

/// The empty bucket holds nothing.
pub proof fn law_empty()
    ensures
        well_formed(Bucket::Empty),
        Bucket::Empty@ == Map::<KeyView, Value>::empty(),
        entries(Bucket::Empty) == Seq::<(Key, Value)>::empty(),
{
}

/// Inserting under a key that a bucket does not hold and deleting that key
/// again gives the bucket back as it was.
pub proof fn lemma_restore(d: Bucket, k: Key, v: Value)
    requires
        well_formed(d),
        !d@.contains_key(k@),
    ensures
        without(with(d, k, v), k@) == d,
{
    lemma_without(d, k@);
    lemma_entry(k, v, without(d, k@));
}

impl Bucket {
    /// The empty bucket.
    pub fn new() -> (r: Bucket)
        ensures
            r == Bucket::Empty,
            r@ == Map::<KeyView, Value>::empty(),
            well_formed(r),
    {
        Bucket::Empty
    }

    /// Lets a proof know that this bucket, as every bucket that
    /// exists, is well formed. It does nothing when it runs.
    pub fn check(&self)
        ensures
            well_formed(*self),
    {
        proof {
            match self {
                Bucket::Empty => {},
                Bucket::Entry(n) => {
                    use_type_invariant(&**n);
                },
            }
        }
    }

    /// The number of entries, held at the largest `usize`. It is read off
    /// the first entry.
    pub fn size(&self) -> (r: usize)
        ensures
            r == size(*self),
            r as nat == if entries(*self).len() <= usize::MAX {
                entries(*self).len()
            } else {
                usize::MAX as nat
            },
    {
        match self {
            Bucket::Empty => 0,
            Bucket::Entry(n) => {
                proof {
                    use_type_invariant(&**n);
                }
                n.size
            },
        }
    }

    pub fn is_empty(&self) -> (r: bool)
        ensures
            r == (*self == Bucket::Empty),
            r == (entries(*self).len() == 0),
    {
        match self {
            Bucket::Empty => true,
            Bucket::Entry(_) => false,
        }
    }

    /// The value under `k`, if there is one.
    pub fn strict_find(&self, k: &Key) -> (r: Option<Value>)
        ensures
            r == if self@.contains_key(k@) {
                Some(self@[k@])
            } else {
                None
            },
    {
        let mut cur: Bucket = self.clone();
        loop
            invariant
                self@.contains_key(k@) == cur@.contains_key(k@),
                cur@.contains_key(k@) ==> self@[k@] == cur@[k@],
            decreases cur,
        {
            match cur {
                Bucket::Empty => {
                    return None;
                },
                Bucket::Entry(n) => {
                    assert(cur@ == n.rest@.insert(n.key@, n.value));
                    if n.key.same(k) {
                        return Some(n.value.clone());
                    }
                    cur = n.rest.clone();
                },
            }
        }
    }

    /// This bucket without the entry under `k`. The entries in front of
    /// that entry are built anew, the entries behind it are shared.
    fn remove(&self, k: &Key) -> (r: Bucket)
        ensures
            r == without(*self, k@),
            r@ == self@.remove(k@),
    {
        self.check();
        proof {
            lemma_without(*self, k@);
        }
        let mut front: Vec<Bucket> = Vec::new();
        let mut cur: Bucket = self.clone();
        let mut acc: Bucket = Bucket::Empty;
        loop
            invariant_except_break
                self@.contains_key(k@) == cur@.contains_key(k@),
            invariant
                well_formed(*self),
                !self@.contains_key(k@) ==> without(*self, k@) == *self,
                front@.len() == 0 ==> cur == *self,
                front@.len() > 0 ==> front@[0] == *self && rest_of(front@.last()) == cur,
                forall|i: int|
                    0 <= i < front@.len() ==> (#[trigger] front@[i]) is Entry && key_of(
                        front@[i],
                    )@ != k@,
                forall|i: int|
                    0 <= i < front@.len() - 1 ==> rest_of(#[trigger] front@[i]) == front@[i + 1],
            ensures
                acc == without(cur, k@),
            decreases cur,
        {
            match &cur {
                Bucket::Empty => {
                    return self.clone();
                },
                Bucket::Entry(n) => {
                    if n.key.same(k) {
                        acc = n.rest.clone();
                        break ;
                    }
                    let next = n.rest.clone();
                    proof {
                        assert(cur@ == n.rest@.insert(n.key@, n.value));
                    }
                    front.push(cur.clone());
                    cur = next;
                },
            }
        }
        let mut i: usize = front.len();
        while i > 0
            invariant
                i <= front@.len(),
                front@.len() == 0 ==> cur == *self,
                front@.len() > 0 ==> front@[0] == *self && rest_of(front@.last()) == cur,
                forall|j: int|
                    0 <= j < front@.len() ==> (#[trigger] front@[j]) is Entry && key_of(
                        front@[j],
                    )@ != k@,
                forall|j: int|
                    0 <= j < front@.len() - 1 ==> rest_of(#[trigger] front@[j]) == front@[j + 1],
                acc == without(
                    if i == front@.len() {
                        cur
                    } else {
                        front@[i as int]
                    },
                    k@,
                ),
            decreases i,
        {
            i = i - 1;
            front[i].check();
            match &front[i] {
                Bucket::Empty => {},
                Bucket::Entry(n) => {
                    proof {
                        assert(rest_of(front@[i as int]) == n.rest);
                        assert(key_of(front@[i as int]) == n.key);
                        lemma_without(rest_of(front@[i as int]), k@);
                    }
                    acc = Bucket::cons(n.key.clone(), n.value.clone(), acc);
                },
            }
        }
        acc
    }

    /// `rest` with one entry in front of it.
    fn cons(key: Key, value: Value, rest: Bucket) -> (r: Bucket)
        requires
            !rest@.contains_key(key@),
        ensures
            r == entry(key, value, rest),
    {
        rest.check();
        let n: usize = rest.size();
        let size: usize = if n < usize::MAX {
            n + 1
        } else {
            usize::MAX
        };
        Bucket::Entry(Arc::new(Node { key, value, rest, size }))
    }

    /// This bucket with `v` under `k`, whatever it held there before.
    pub fn strict_insert(&self, k: Key, v: Value) -> (r: Bucket)
        ensures
            r == with(*self, k, v),
            r@ == self@.insert(k@, v),
    {
        self.check();
        proof {
            lemma_with(*self, k, v);
        }
        let rest = self.remove(&k);
        Bucket::cons(k, v, rest)
    }

    /// This bucket without the entry under `k`, or nothing if it has no
    /// such entry.
    pub fn strict_delete(&self, k: &Key) -> (r: Option<Bucket>)
        ensures
            r == if self@.contains_key(k@) {
                Some(without(*self, k@))
            } else {
                None
            },
            r matches Some(d) ==> d@ == self@.remove(k@),
    {
        match self.strict_find(k) {
            None => None,
            Some(_) => Some(self.remove(k)),
        }
    }

    /// Appends the entries of this bucket to `out`, in the order of a walk.
    pub fn collect(&self, out: &mut Vec<(Key, Value)>)
        ensures
            final(out)@ == old(out)@ + entries(*self),
    {
        let mut cur: Bucket = self.clone();
        proof {
            assert(out@ + entries(cur) =~= old(out)@ + entries(*self));
        }
        loop
            invariant
                out@ + entries(cur) == old(out)@ + entries(*self),
            decreases cur,
        {
            match cur {
                Bucket::Empty => {
                    proof {
                        assert(out@ + Seq::<(Key, Value)>::empty() =~= out@);
                    }
                    return ;
                },
                Bucket::Entry(n) => {
                    proof {
                        assert(out@ + (seq![(n.key, n.value)] + entries(n.rest)) =~= out@.push(
                            (n.key, n.value),
                        ) + entries(n.rest));
                    }
                    out.push((n.key.clone(), n.value.clone()));
                    cur = n.rest.clone();
                },
            }
        }
    }
}

impl Clone for Bucket {
    fn clone(&self) -> (r: Bucket)
        ensures
            r == *self,
    {
        match self {
            Bucket::Empty => Bucket::Empty,
            Bucket::Entry(n) => Bucket::Entry(share(n)),
        }
    }
}

} // verus!
