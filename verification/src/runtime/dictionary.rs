//! The persistent dictionary: a trie over the bits of the hashes of its
//! keys.
//!
//! A key is found by walking one branch for each of the 64 bits of its hash
//! and then the bucket of the keys of that hash, so the cost of a lookup, an
//! insertion or a deletion does not grow with the number of entries. An
//! insertion or a deletion builds the branches on that walk anew and shares
//! all others with the dictionary it started from.

use std::sync::Arc;
use vstd::prelude::*;
use crate::runtime::bucket;
use crate::runtime::bucket::Bucket;
use crate::runtime::key::{hash, Key, KeyView};
use crate::runtime::value::{share, Value};

verus! {

/// How many bits of a hash are walked.
pub const LEVELS: u8 = 64;

/// A persistent map from keys to values. Every operation that changes it
/// returns a new dictionary and leaves the old one as it was; the two share
/// what they have in common.
#[derive(Debug)]
pub struct Dictionary {
    root: Trie,
}

/// A part of a dictionary: nothing, the entries of one hash, or the entries
/// whose hashes have a zero at some bit beside those that have a one there.
#[derive(Debug)]
pub enum Trie {
    Empty,
    Branch(Arc<Branch>),
    Leaf(Bucket),
}

/// The two parts below a bit of the hash, and how many entries they hold.
#[derive(Debug)]
pub struct Branch {
    zero: Trie,
    one: Trie,
    size: usize,
    level: u8,
}

/// The bit of the hash `h` at `level`.
pub open spec fn bit(h: u64, level: u8) -> bool {
    (h >> level) & 1 == 1
}

/// The count `n`, held at the largest `usize`.
pub open spec fn saturated(n: nat) -> usize {
    if n <= usize::MAX {
        n as usize
    } else {
        usize::MAX
    }
}

/// The map that a part stands for.
pub closed spec fn part_view(t: Trie) -> Map<KeyView, Value>
    decreases t,
{
    match t {
        Trie::Empty => Map::empty(),
        Trie::Leaf(b) => b@,
        Trie::Branch(n) => part_view(n.zero).union_prefer_right(part_view(n.one)),
    }
}

/// The entries of a part in the order of a walk: those below a zero bit in
/// front of those below a one bit.
pub closed spec fn part_entries(t: Trie) -> Seq<(Key, Value)>
    decreases t,
{
    match t {
        Trie::Empty => Seq::empty(),
        Trie::Leaf(b) => bucket::entries(b),
        Trie::Branch(n) => part_entries(n.zero) + part_entries(n.one),
    }
}

/// Whether a part is in order where it stands at `level`: branches stand at
/// the levels of the bits they tell apart and hold at least one entry,
/// buckets stand below the last bit and are not empty.
pub closed spec fn part_ok(t: Trie, level: nat) -> bool
    decreases t,
{
    match t {
        Trie::Empty => true,
        Trie::Leaf(b) => level == LEVELS && bucket::well_formed(b) && bucket::entries(b).len() > 0,
        Trie::Branch(n) => n.level == level && n.inv(),
    }
}

impl Branch {
    #[verifier::type_invariant]
    pub closed spec fn inv(self) -> bool
        decreases self,
    {
        &&& self.level < LEVELS
        &&& part_ok(self.zero, (self.level + 1) as nat)
        &&& part_ok(self.one, (self.level + 1) as nat)
        &&& forall|k: KeyView| #[trigger]
            part_view(self.zero).contains_key(k) ==> !bit(hash(k), self.level)
        &&& forall|k: KeyView| #[trigger]
            part_view(self.one).contains_key(k) ==> bit(hash(k), self.level)
        &&& self.size == saturated(part_entries(self.zero).len() + part_entries(self.one).len())
        &&& part_entries(self.zero).len() + part_entries(self.one).len() > 0
    }
}

impl Dictionary {
    #[verifier::type_invariant]
    pub closed spec fn inv(self) -> bool {
        part_ok(self.root, 0)
    }
}

impl View for Dictionary {
    type V = Map<KeyView, Value>;

    /// The map that the dictionary stands for.
    closed spec fn view(&self) -> Map<KeyView, Value> {
        part_view(self.root)
    }
}

/// The dictionary without entries.
pub closed spec fn empty() -> Dictionary {
    Dictionary { root: Trie::Empty }
}

/// The entries of a dictionary in the order in which a walk meets them.
pub closed spec fn entries(d: Dictionary) -> Seq<(Key, Value)> {
    part_entries(d.root)
}

/// The number of entries of `d`, held at the largest `usize`.
pub closed spec fn size(d: Dictionary) -> usize {
    saturated(entries(d).len())
}

/// Every branch and every bucket of `d` is in order.
pub closed spec fn well_formed(d: Dictionary) -> bool {
    part_ok(d.root, 0)
}

/// The branch of the parts `zero` and `one` at `level`.
spec fn branch(zero: Trie, one: Trie, level: nat) -> Trie {
    Trie::Branch(
        Arc::new(
            Branch {
                zero,
                one,
                size: saturated(part_entries(zero).len() + part_entries(one).len()),
                level: level as u8,
            },
        ),
    )
}

/// The part below a zero bit.
spec fn zero_of(t: Trie) -> Trie {
    match t {
        Trie::Branch(n) => n.zero,
        _ => Trie::Empty,
    }
}

/// The part below a one bit.
spec fn one_of(t: Trie) -> Trie {
    match t {
        Trie::Branch(n) => n.one,
        _ => Trie::Empty,
    }
}

/// The bucket of a part that is one.
spec fn bucket_of(t: Trie) -> Bucket {
    match t {
        Trie::Leaf(b) => b,
        _ => Bucket::Empty,
    }
}

/// The part that holds the bucket `b`.
spec fn leaf(b: Bucket) -> Trie {
    if bucket::entries(b).len() == 0 {
        Trie::Empty
    } else {
        Trie::Leaf(b)
    }
}

/// The part that holds the parts `zero` and `one` at `level`.
spec fn join(zero: Trie, one: Trie, level: nat) -> Trie {
    if zero is Empty && one is Empty {
        Trie::Empty
    } else {
        branch(zero, one, level)
    }
}

/// The part `t` at `level` with `v` under `k`.
spec fn part_with(t: Trie, level: nat, k: Key, v: Value) -> Trie
    decreases LEVELS - level,
{
    if level >= LEVELS {
        Trie::Leaf(bucket::with(bucket_of(t), k, v))
    } else if bit(hash(k@), level as u8) {
        branch(zero_of(t), part_with(one_of(t), level + 1, k, v), level)
    } else {
        branch(part_with(zero_of(t), level + 1, k, v), one_of(t), level)
    }
}

/// The part `t` at `level` without the entry under `k`.
spec fn part_without(t: Trie, level: nat, k: KeyView) -> Trie
    decreases LEVELS - level,
{
    if t is Empty {
        t
    } else if level >= LEVELS {
        leaf(bucket::without(bucket_of(t), k))
    } else if bit(hash(k), level as u8) {
        join(zero_of(t), part_without(one_of(t), level + 1, k), level)
    } else {
        join(part_without(zero_of(t), level + 1, k), one_of(t), level)
    }
}

/// `d` with `v` under `k`, whatever it held there before.
pub closed spec fn with(d: Dictionary, k: Key, v: Value) -> Dictionary {
    Dictionary { root: part_with(d.root, 0, k, v) }
}

/// `d` without the entry under `k`.
pub closed spec fn without(d: Dictionary, k: KeyView) -> Dictionary {
    Dictionary { root: part_without(d.root, 0, k) }
}

/// `d` with each of the entries `es` inserted in turn.
pub open spec fn with_all(d: Dictionary, es: Seq<(Key, Value)>) -> Dictionary
    decreases es.len(),
{
    if es.len() == 0 {
        d
    } else {
        with(with_all(d, es.drop_last()), es.last().0, es.last().1)
    }
}

/// `d` with every entry of `other` inserted in the order of a walk of
/// `other`.
pub open spec fn merged(d: Dictionary, other: Dictionary) -> Dictionary {
    with_all(d, entries(other))
}

/// The map of the entries `es`, of which a later one replaces an earlier
/// one of its key.
pub open spec fn map_of(es: Seq<(Key, Value)>) -> Map<KeyView, Value>
    decreases es.len(),
{
    if es.len() == 0 {
        Map::empty()
    } else {
        map_of(es.drop_last()).insert(es.last().0@, es.last().1)
    }
}

/// Whether the entries `es` are those of the map `m`, each key once.
pub open spec fn lists(es: Seq<(Key, Value)>, m: Map<KeyView, Value>) -> bool {
    &&& forall|i: int|
        0 <= i < es.len() ==> m.contains_key(#[trigger] es[i].0@) && m[es[i].0@] == es[i].1
    &&& forall|k: KeyView|
        m.contains_key(k) ==> exists|i: int| 0 <= i < es.len() && #[trigger] es[i].0@ == k
    &&& forall|i: int, j: int| 0 <= i < j < es.len() ==> es[i].0@ != es[j].0@
}

/// The empty dictionary holds nothing.
pub proof fn law_empty()
    ensures
        empty()@ == Map::<KeyView, Value>::empty(),
        entries(empty()) == Seq::<(Key, Value)>::empty(),
        well_formed(empty()),
        size(empty()) == 0,
{
}

/// What `size` is.
pub proof fn law_size(d: Dictionary)
    ensures
        size(d) == saturated(entries(d).len()),
{
}

proof fn lemma_lists_concat(
    a: Seq<(Key, Value)>,
    m: Map<KeyView, Value>,
    b: Seq<(Key, Value)>,
    n: Map<KeyView, Value>,
)
    requires
        lists(a, m),
        lists(b, n),
        forall|k: KeyView| m.contains_key(k) ==> !n.contains_key(k),
    ensures
        lists(a + b, m.union_prefer_right(n)),
{
    let es = a + b;
    let u = m.union_prefer_right(n);
    assert forall|i: int| 0 <= i < es.len() implies u.contains_key(#[trigger] es[i].0@) && u[es[i].0@]
        == es[i].1 by {
        if i < a.len() {
            assert(es[i] == a[i]);
            assert(m.contains_key(a[i].0@));
        } else {
            assert(es[i] == b[i - a.len()]);
            assert(n.contains_key(b[i - a.len()].0@));
        }
    }
    assert forall|k: KeyView| u.contains_key(k) implies exists|i: int|
        0 <= i < es.len() && #[trigger] es[i].0@ == k by {
        if n.contains_key(k) {
            let j = choose|j: int| 0 <= j < b.len() && #[trigger] b[j].0@ == k;
            assert(es[a.len() + j] == b[j]);
            assert(es[a.len() + j].0@ == k);
        } else {
            let j = choose|j: int| 0 <= j < a.len() && #[trigger] a[j].0@ == k;
            assert(es[j] == a[j]);
            assert(es[j].0@ == k);
        }
    }
    assert forall|i: int, j: int| 0 <= i < j < es.len() implies es[i].0@ != es[j].0@ by {
        if j < a.len() {
            assert(es[i] == a[i] && es[j] == a[j]);
        } else if i >= a.len() {
            assert(es[i] == b[i - a.len()] && es[j] == b[j - a.len()]);
        } else {
            assert(es[i] == a[i] && es[j] == b[j - a.len()]);
            assert(m.contains_key(a[i].0@));
            assert(n.contains_key(b[j - a.len()].0@));
        }
    }
}

/// A walk of a part meets exactly the entries of its map, each key once;
/// and a part without entries is the empty part.
proof fn lemma_part_entries(t: Trie, level: nat)
    requires
        part_ok(t, level),
    ensures
        lists(part_entries(t), part_view(t)),
        part_entries(t).len() == 0 <==> t is Empty,
    decreases t,
{
    match t {
        Trie::Empty => {},
        Trie::Leaf(b) => {
            bucket::law_entries(b);
        },
        Trie::Branch(_) => {
            lemma_part_entries(zero_of(t), level + 1);
            lemma_part_entries(one_of(t), level + 1);
            let l = level as u8;
            assert forall|k: KeyView| part_view(zero_of(t)).contains_key(k) implies !part_view(
                one_of(t),
            ).contains_key(k) by {
                if part_view(one_of(t)).contains_key(k) {
                    assert(bit(hash(k), l));
                    assert(!bit(hash(k), l));
                }
            }
            lemma_lists_concat(
                part_entries(zero_of(t)),
                part_view(zero_of(t)),
                part_entries(one_of(t)),
                part_view(one_of(t)),
            );
        },
    }
}

/// A walk of a dictionary meets exactly the entries of its map, each key
/// once.
pub proof fn law_entries(d: Dictionary)
    requires
        well_formed(d),
    ensures
        lists(entries(d), d@),
{
    lemma_part_entries(d.root, 0);
}

/// What a branch is.
proof fn lemma_branch(zero: Trie, one: Trie, level: nat)
    ensures
        part_view(branch(zero, one, level)) == part_view(zero).union_prefer_right(part_view(one)),
        part_entries(branch(zero, one, level)) == part_entries(zero) + part_entries(one),
        zero_of(branch(zero, one, level)) == zero,
        one_of(branch(zero, one, level)) == one,
{
}

/// What `part_with` does to a part.
proof fn lemma_part_with(t: Trie, level: nat, k: Key, v: Value)
    requires
        part_ok(t, level),
        level <= LEVELS,
    ensures
        part_ok(part_with(t, level, k, v), level),
        part_view(part_with(t, level, k, v)) == part_view(t).insert(k@, v),
        part_entries(part_with(t, level, k, v)).len() == if part_view(t).contains_key(k@) {
            part_entries(t).len()
        } else {
            part_entries(t).len() + 1
        },
        !(part_with(t, level, k, v) is Empty),
    decreases LEVELS - level,
{
    let r = part_with(t, level, k, v);
    if level >= LEVELS {
        bucket::law_empty();
        bucket::lemma_with(bucket_of(t), k, v);
        bucket::law_entries(bucket_of(t));
    } else {
        let l = level as u8;
        let z = zero_of(t);
        let o = one_of(t);
        if bit(hash(k@), l) {
            let p = part_with(o, level + 1, k, v);
            lemma_part_with(o, level + 1, k, v);
            lemma_part_entries(p, level + 1);
            lemma_children_ok(t, level);
            lemma_branch(z, p, level);
            assert(!part_view(z).contains_key(k@));
            assert(part_view(r) =~= part_view(t).insert(k@, v));
            assert forall|j: KeyView| #[trigger] part_view(p).contains_key(j) implies bit(
                hash(j),
                l,
            ) by {
                if j != k@ {
                    assert(part_view(o).contains_key(j));
                }
            }
        } else {
            let p = part_with(z, level + 1, k, v);
            lemma_part_with(z, level + 1, k, v);
            lemma_part_entries(p, level + 1);
            lemma_children_ok(t, level);
            lemma_branch(p, o, level);
            assert(!part_view(o).contains_key(k@));
            assert(part_view(r) =~= part_view(t).insert(k@, v));
            assert forall|j: KeyView| #[trigger] part_view(p).contains_key(j) implies !bit(
                hash(j),
                l,
            ) by {
                if j != k@ {
                    assert(part_view(z).contains_key(j));
                }
            }
        }
    }
}

/// What `part_without` does to a part.
proof fn lemma_part_without(t: Trie, level: nat, k: KeyView)
    requires
        part_ok(t, level),
        level <= LEVELS,
    ensures
        part_ok(part_without(t, level, k), level),
        part_view(part_without(t, level, k)) == part_view(t).remove(k),
        part_entries(part_without(t, level, k)).len() == if part_view(t).contains_key(k) {
            part_entries(t).len() - 1
        } else {
            part_entries(t).len() as int
        },
    decreases LEVELS - level,
{
    let r = part_without(t, level, k);
    if t is Empty {
        assert(part_view(t).remove(k) =~= part_view(t));
    } else if level >= LEVELS {
        let rest = bucket::without(bucket_of(t), k);
        bucket::lemma_without(bucket_of(t), k);
        bucket::law_entries(rest);
        if bucket::entries(rest).len() == 0 {
            assert(rest@ =~= Map::<KeyView, Value>::empty());
        }
    } else {
        let l = level as u8;
        let z = zero_of(t);
        let o = one_of(t);
        lemma_part_entries(z, level + 1);
        lemma_part_entries(o, level + 1);
        if bit(hash(k), l) {
            let p = part_without(o, level + 1, k);
            lemma_part_without(o, level + 1, k);
            lemma_part_entries(p, level + 1);
            lemma_branch(z, p, level);
            assert(!part_view(z).contains_key(k));
            assert(part_view(z).union_prefer_right(part_view(p)) =~= part_view(t).remove(k));
            assert forall|j: KeyView| #[trigger] part_view(p).contains_key(j) implies bit(
                hash(j),
                l,
            ) by {
                assert(part_view(o).contains_key(j));
            }
        } else {
            let p = part_without(z, level + 1, k);
            lemma_part_without(z, level + 1, k);
            lemma_part_entries(p, level + 1);
            lemma_branch(p, o, level);
            assert(!part_view(o).contains_key(k));
            assert(part_view(p).union_prefer_right(part_view(o)) =~= part_view(t).remove(k));
            assert forall|j: KeyView| #[trigger] part_view(p).contains_key(j) implies !bit(
                hash(j),
                l,
            ) by {
                assert(part_view(z).contains_key(j));
            }
        }
    }
}

/// What `with` does to the map and to the number of entries.
pub proof fn lemma_with(d: Dictionary, k: Key, v: Value)
    requires
        well_formed(d),
    ensures
        well_formed(with(d, k, v)),
        with(d, k, v)@ == d@.insert(k@, v),
        entries(with(d, k, v)).len() == if d@.contains_key(k@) {
            entries(d).len()
        } else {
            entries(d).len() + 1
        },
{
    lemma_part_with(d.root, 0, k, v);
}

/// What `without` does to the map and to the number of entries.
pub proof fn lemma_without(d: Dictionary, k: KeyView)
    requires
        well_formed(d),
    ensures
        well_formed(without(d, k)),
        without(d, k)@ == d@.remove(k),
        entries(without(d, k)).len() == if d@.contains_key(k) {
            entries(d).len() - 1
        } else {
            entries(d).len() as int
        },
{
    lemma_part_without(d.root, 0, k);
}

proof fn lemma_part_restore(t: Trie, level: nat, k: Key, v: Value)
    requires
        part_ok(t, level),
        level <= LEVELS,
        !part_view(t).contains_key(k@),
    ensures
        part_without(part_with(t, level, k, v), level, k@) == t,
    decreases LEVELS - level,
{
    lemma_part_with(t, level, k, v);
    lemma_part_entries(t, level);
    if level >= LEVELS {
        bucket::law_empty();
        bucket::lemma_restore(bucket_of(t), k, v);
        bucket::lemma_with(bucket_of(t), k, v);
    } else {
        let z = zero_of(t);
        let o = one_of(t);
        lemma_part_entries(z, level + 1);
        lemma_part_entries(o, level + 1);
        if bit(hash(k@), level as u8) {
            lemma_part_restore(o, level + 1, k, v);
            lemma_branch(z, part_with(o, level + 1, k, v), level);
        } else {
            lemma_part_restore(z, level + 1, k, v);
            lemma_branch(part_with(z, level + 1, k, v), o, level);
        }
        if t is Branch {
            assert(branch(z, o, level) == t);
        }
    }
}

/// Inserting under a key that a dictionary does not hold and deleting that
/// key again gives the dictionary back as it was.
pub proof fn lemma_restore(d: Dictionary, k: Key, v: Value)
    requires
        well_formed(d),
        !d@.contains_key(k@),
    ensures
        without(with(d, k, v), k@) == d,
{
    lemma_part_restore(d.root, 0, k, v);
}

/// What inserting entries in turn does to the map: a later entry wins over
/// an earlier one, and every entry over what the dictionary held.
pub proof fn lemma_with_all(d: Dictionary, es: Seq<(Key, Value)>)
    requires
        well_formed(d),
    ensures
        well_formed(with_all(d, es)),
        with_all(d, es)@ == d@.union_prefer_right(map_of(es)),
    decreases es.len(),
{
    if es.len() == 0 {
        assert(d@.union_prefer_right(map_of(es)) =~= d@);
    } else {
        lemma_with_all(d, es.drop_last());
        lemma_with(with_all(d, es.drop_last()), es.last().0, es.last().1);
        assert(with_all(d, es)@ =~= d@.union_prefer_right(map_of(es)));
    }
}

/// The map of entries that list a map is that map.
proof fn lemma_map_of(es: Seq<(Key, Value)>, m: Map<KeyView, Value>)
    requires
        lists(es, m),
    ensures
        map_of(es) == m,
    decreases es.len(),
{
    if es.len() == 0 {
        assert(map_of(es) =~= m);
    } else {
        let init = es.drop_last();
        let last = es.last();
        let rest = m.remove(last.0@);
        assert forall|i: int| 0 <= i < init.len() implies rest.contains_key(#[trigger] init[i].0@)
            && rest[init[i].0@] == init[i].1 by {
            assert(init[i] == es[i]);
            assert(es[i].0@ != es[es.len() - 1].0@);
        }
        assert forall|k: KeyView| rest.contains_key(k) implies exists|i: int|
            0 <= i < init.len() && #[trigger] init[i].0@ == k by {
            let i = choose|i: int| 0 <= i < es.len() && #[trigger] es[i].0@ == k;
            assert(i < init.len());
            assert(init[i] == es[i]);
        }
        assert forall|i: int, j: int| 0 <= i < j < init.len() implies init[i].0@ != init[j].0@ by {
            assert(init[i] == es[i] && init[j] == es[j]);
        }
        lemma_map_of(init, rest);
        assert(m.contains_key(es[es.len() - 1].0@));
        assert(map_of(es) =~= m);
    }
}

/// What `merged` does to the map: the entries of `other` win.
pub proof fn lemma_merged(d: Dictionary, other: Dictionary)
    requires
        well_formed(d),
        well_formed(other),
    ensures
        well_formed(merged(d, other)),
        merged(d, other)@ == d@.union_prefer_right(other@),
{
    lemma_with_all(d, entries(other));
    law_entries(other);
    lemma_map_of(entries(other), other@);
}

impl Clone for Trie {
    fn clone(&self) -> (r: Trie)
        ensures
            r == *self,
    {
        match self {
            Trie::Empty => Trie::Empty,
            Trie::Branch(n) => Trie::Branch(share(n)),
            Trie::Leaf(b) => Trie::Leaf(b.clone()),
        }
    }
}

impl Trie {
    /// How many entries this part holds, held at the largest `usize`.
    fn size(&self) -> (r: usize)
        ensures
            r == saturated(part_entries(*self).len()),
    {
        match self {
            Trie::Empty => 0,
            Trie::Leaf(b) => {
                proof {
                    bucket::law_size(*b);
                }
                b.size()
            },
            Trie::Branch(n) => {
                proof {
                    use_type_invariant(&**n);
                }
                n.size
            },
        }
    }

    /// Whether this part is the empty one.
    fn is_empty(&self) -> (r: bool)
        ensures
            r == (*self is Empty),
    {
        match self {
            Trie::Empty => true,
            _ => false,
        }
    }

    /// The parts below this one: those of a branch, or two empty ones.
    fn children(&self) -> (r: (Trie, Trie))
        ensures
            r.0 == zero_of(*self),
            r.1 == one_of(*self),
    {
        match self {
            Trie::Branch(n) => (n.zero.clone(), n.one.clone()),
            _ => (Trie::Empty, Trie::Empty),
        }
    }

    /// The branch of the parts `zero` and `one` at `level`.
    fn branch(zero: Trie, one: Trie, level: u8) -> (r: Trie)
        requires
            part_ok(branch(zero, one, level as nat), level as nat),
        ensures
            r == branch(zero, one, level as nat),
    {
        let a: usize = zero.size();
        let b: usize = one.size();
        let size: usize = if a <= usize::MAX - b {
            a + b
        } else {
            usize::MAX
        };
        Trie::Branch(Arc::new(Branch { zero, one, size, level }))
    }

    /// This part at `level` with `v` under `k`, whose hash is `h`.
    fn with(&self, level: u8, h: u64, k: Key, v: Value) -> (r: Trie)
        requires
            part_ok(*self, level as nat),
            level <= LEVELS,
            h == hash(k@),
        ensures
            r == part_with(*self, level as nat, k, v),
        decreases LEVELS - level,
    {
        proof {
            lemma_part_with(*self, level as nat, k, v);
        }
        if level >= LEVELS {
            match self {
                Trie::Leaf(b) => Trie::Leaf(b.strict_insert(k, v)),
                _ => Trie::Leaf(Bucket::new().strict_insert(k, v)),
            }
        } else {
            let (zero, one) = self.children();
            proof {
                lemma_children_ok(*self, level as nat);
            }
            if (h >> level) & 1 == 1 {
                let part = one.with(level + 1, h, k, v);
                Trie::branch(zero, part, level)
            } else {
                let part = zero.with(level + 1, h, k, v);
                Trie::branch(part, one, level)
            }
        }
    }

    /// This part at `level` without the entry under `k`, whose hash is `h`.
    fn without(&self, level: u8, h: u64, k: &Key) -> (r: Trie)
        requires
            part_ok(*self, level as nat),
            level <= LEVELS,
            h == hash(k@),
        ensures
            r == part_without(*self, level as nat, k@),
        decreases LEVELS - level,
    {
        proof {
            lemma_part_without(*self, level as nat, k@);
        }
        match self {
            Trie::Empty => Trie::Empty,
            Trie::Leaf(b) => {
                let rest = match b.strict_delete(k) {
                    Some(rest) => rest,
                    None => {
                        proof {
                            bucket::lemma_without(*b, k@);
                        }
                        b.clone()
                    },
                };
                if rest.is_empty() {
                    Trie::Empty
                } else {
                    Trie::Leaf(rest)
                }
            },
            Trie::Branch(n) => {
                proof {
                    lemma_children_ok(*self, level as nat);
                }
                if (h >> level) & 1 == 1 {
                    let part = n.one.without(level + 1, h, k);
                    if part.is_empty() && n.zero.is_empty() {
                        Trie::Empty
                    } else {
                        Trie::branch(n.zero.clone(), part, level)
                    }
                } else {
                    let part = n.zero.without(level + 1, h, k);
                    if part.is_empty() && n.one.is_empty() {
                        Trie::Empty
                    } else {
                        Trie::branch(part, n.one.clone(), level)
                    }
                }
            },
        }
    }

    /// Appends the entries of this part to `out`, in the order of a walk.
    fn collect(&self, out: &mut Vec<(Key, Value)>)
        ensures
            final(out)@ == old(out)@ + part_entries(*self),
        decreases self,
    {
        match self {
            Trie::Empty => {
                proof {
                    assert(out@ + Seq::<(Key, Value)>::empty() =~= out@);
                }
            },
            Trie::Leaf(b) => {
                b.collect(out);
            },
            Trie::Branch(n) => {
                let ghost before = out@;
                n.zero.collect(out);
                n.one.collect(out);
                proof {
                    assert(before + part_entries(n.zero) + part_entries(n.one) =~= before + (
                    part_entries(n.zero) + part_entries(n.one)));
                }
            },
        }
    }
}

/// A key that a branch holds stands below the bit that its hash has at the
/// level of the branch.
proof fn lemma_branch_holds(t: Trie, level: nat, k: KeyView)
    requires
        part_ok(t, level),
        t is Branch,
    ensures
        level < LEVELS,
        bit(hash(k), level as u8) ==> part_view(t).contains_key(k) == part_view(
            one_of(t),
        ).contains_key(k) && (part_view(t).contains_key(k) ==> part_view(t)[k] == part_view(
            one_of(t),
        )[k]),
        !bit(hash(k), level as u8) ==> part_view(t).contains_key(k) == part_view(
            zero_of(t),
        ).contains_key(k) && (part_view(t).contains_key(k) ==> part_view(t)[k] == part_view(
            zero_of(t),
        )[k]),
{
    let z = part_view(zero_of(t));
    let o = part_view(one_of(t));
    assert(part_view(t) == z.union_prefer_right(o));
    if bit(hash(k), level as u8) {
        assert(!z.contains_key(k));
    } else {
        assert(!o.contains_key(k));
    }
}

/// The parts below a part that is in order are in order one level down.
proof fn lemma_children_ok(t: Trie, level: nat)
    requires
        part_ok(t, level),
        level < LEVELS,
    ensures
        part_ok(zero_of(t), level + 1),
        part_ok(one_of(t), level + 1),
        !(t is Leaf),
        t is Branch ==> t->Branch_0.level == level,
{
}

impl Dictionary {
    /// The empty dictionary.
    pub fn new() -> (r: Dictionary)
        ensures
            r == empty(),
            r@ == Map::<KeyView, Value>::empty(),
            well_formed(r),
    {
        Dictionary { root: Trie::Empty }
    }

    /// Lets a proof know that this dictionary, as every dictionary that
    /// exists, is well formed. It does nothing when it runs.
    pub fn check(&self)
        ensures
            well_formed(*self),
    {
        proof {
            use_type_invariant(self);
        }
    }

    /// The number of entries, held at the largest `usize`. It is read off
    /// the root.
    pub fn size(&self) -> (r: usize)
        ensures
            r == size(*self),
            r == saturated(entries(*self).len()),
    {
        self.root.size()
    }

    pub fn is_empty(&self) -> (r: bool)
        ensures
            r == (entries(*self).len() == 0),
            r == (*self == empty()),
    {
        proof {
            use_type_invariant(self);
            lemma_part_entries(self.root, 0);
        }
        self.root.is_empty()
    }

    /// The entries, in the order of a walk.
    pub fn entries(&self) -> (r: Vec<(Key, Value)>)
        ensures
            r@ == entries(*self),
    {
        let mut out: Vec<(Key, Value)> = Vec::new();
        self.root.collect(&mut out);
        proof {
            assert(Seq::<(Key, Value)>::empty() + entries(*self) =~= entries(*self));
        }
        out
    }

    /// The value under `k`, if there is one. The walk takes one step for
    /// each bit of the hash of `k` and then reads one bucket.
    pub fn strict_find(&self, k: &Key) -> (r: Option<Value>)
        ensures
            r == if self@.contains_key(k@) {
                Some(self@[k@])
            } else {
                None
            },
    {
        proof {
            use_type_invariant(self);
        }
        let h: u64 = k.hash();
        let mut cur: Trie = self.root.clone();
        let mut level: u8 = 0;
        loop
            invariant
                level <= LEVELS,
                h == hash(k@),
                part_ok(cur, level as nat),
                self@.contains_key(k@) == part_view(cur).contains_key(k@),
                part_view(cur).contains_key(k@) ==> self@[k@] == part_view(cur)[k@],
            decreases LEVELS - level,
        {
            let ghost here = cur;
            match cur {
                Trie::Empty => {
                    return None;
                },
                Trie::Leaf(b) => {
                    return b.strict_find(k);
                },
                Trie::Branch(n) => {
                    proof {
                        use_type_invariant(&*n);
                        lemma_children_ok(here, level as nat);
                        lemma_branch_holds(here, level as nat, k@);
                    }
                    let next = if (h >> level) & 1 == 1 {
                        n.one.clone()
                    } else {
                        n.zero.clone()
                    };
                    cur = next;
                    level = level + 1;
                },
            }
        }
    }

    /// This dictionary with `v` under `k`, whatever it held there before.
    pub fn strict_insert(&self, k: Key, v: Value) -> (r: Dictionary)
        ensures
            r == with(*self, k, v),
            r@ == self@.insert(k@, v),
    {
        proof {
            use_type_invariant(self);
            lemma_with(*self, k, v);
        }
        let h: u64 = k.hash();
        Dictionary { root: self.root.with(0, h, k, v) }
    }

    /// This dictionary without the entry under `k`, or nothing if it has no
    /// such entry.
    pub fn strict_delete(&self, k: &Key) -> (r: Option<Dictionary>)
        ensures
            r == if self@.contains_key(k@) {
                Some(without(*self, k@))
            } else {
                None
            },
            r matches Some(d) ==> d@ == self@.remove(k@),
    {
        proof {
            use_type_invariant(self);
            lemma_without(*self, k@);
        }
        match self.strict_find(k) {
            None => None,
            Some(_) => {
                let h: u64 = k.hash();
                Some(Dictionary { root: self.root.without(0, h, k) })
            },
        }
    }

    /// This dictionary with every entry of `other` inserted; where both have
    /// a key, the value of `other` stays.
    pub fn merge(&self, other: &Dictionary) -> (r: Dictionary)
        ensures
            r == merged(*self, *other),
            r@ == self@.union_prefer_right(other@),
    {
        proof {
            use_type_invariant(self);
            use_type_invariant(other);
            lemma_merged(*self, *other);
        }
        let es = other.entries();
        let mut acc: Dictionary = self.clone();
        let mut i: usize = 0;
        proof {
            assert(es@.take(0) =~= Seq::<(Key, Value)>::empty());
        }
        while i < es.len()
            invariant
                i <= es@.len(),
                acc == with_all(*self, es@.take(i as int)),
            decreases es@.len() - i,
        {
            proof {
                assert(es@.take(i + 1).drop_last() =~= es@.take(i as int));
                assert(es@.take(i + 1).last() == es@[i as int]);
            }
            acc = acc.strict_insert(es[i].0.clone(), es[i].1.clone());
            i = i + 1;
        }
        proof {
            assert(es@.take(es@.len() as int) =~= es@);
        }
        acc
    }
}

impl Clone for Dictionary {
    fn clone(&self) -> (r: Dictionary)
        ensures
            r == *self,
    {
        proof {
            use_type_invariant(self);
        }
        Dictionary { root: self.root.clone() }
    }
}

} // verus!
