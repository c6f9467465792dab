//! The arguments of a call: how a bundle is built at the call site, and how
//! the called function takes it apart.

use array_queue::ArrayQueue;
use vstd::prelude::*;
use crate::runtime::dictionary::{with, Dictionary};
use crate::runtime::key::Key;
use crate::runtime::error::{ArgumentError, Error};
use crate::runtime::queue::{
    keyword_count, keyword_items, new_keywords, new_positionals, pop_keyword, pop_positional,
    positional_count, positional_items, push_keyword, push_positional,
};
use crate::runtime::semantics::{
    check_empty, insert_all, insert_call, keywords_left, lemma_position, next_positional,
    position, positionals_left, rest_keywords, rest_positionals, search_keyword,
};
use crate::runtime::value::{
    call, cons, frozen_of, native, normal, thunk, ArgumentsView, Frozen, Function,
    KeywordArgument, Keywords, List, Native, Normal, PositionalArgument, Thunk, Value, Values,
};
use std::sync::Arc;

verus! {

/// How many values an argument bundle keeps inline, of each kind.
pub const INLINE: usize = 4;

/// The arguments of one call: up to four positional values inline and a list
/// value for the rest of them, up to four keyword arguments inline and a
/// dictionary value for the rest of them.
///
/// A bundle is built once, at the call site, and used up once, by the
/// function that is called.
pub struct Arguments {
    positionals: ArrayQueue<Value, 4>,
    expanded_list: Option<Value>,
    keywords: ArrayQueue<KeywordArgument, 4>,
    expanded_dict: Option<Value>,
}

impl View for Arguments {
    type V = ArgumentsView;

    closed spec fn view(&self) -> ArgumentsView {
        ArgumentsView {
            positionals: positional_items(self.positionals),
            expanded_list: self.expanded_list,
            keywords: keyword_items(self.keywords),
            expanded_dict: self.expanded_dict,
        }
    }
}

/// How many of the leading entries of `ps` are plain, counting no further
/// than `limit`.
pub open spec fn plain_prefix(ps: Seq<PositionalArgument>, limit: nat) -> nat
    decreases limit,
{
    if limit == 0 || ps.len() == 0 || ps[0].expanded {
        0
    } else {
        1 + plain_prefix(ps.skip(1), (limit - 1) as nat)
    }
}

/// The values of the entries `ps`.
pub open spec fn values(ps: Seq<PositionalArgument>) -> Seq<Value> {
    Seq::new(ps.len(), |i: int| ps[i].value)
}

/// The lazy concatenation of two list values, or lazy overlay of two
/// dictionary values.
pub open spec fn merge_call(a: Value, b: Value) -> Value {
    call(native(Native::Merge), seq![a, b])
}

/// The list value of the positional entries `ps`. A plain entry stands in
/// front of what follows it; a spread entry is merged, unforced, with what
/// follows it; a spread entry at the end is the tail itself.
pub open spec fn merge_positionals(ps: Seq<PositionalArgument>) -> Value
    decreases ps.len(),
{
    if ps.len() == 0 {
        normal(Normal::List(List::Empty))
    } else if ps[0].expanded {
        if ps.len() == 1 {
            ps[0].value
        } else {
            merge_call(ps[0].value, merge_positionals(ps.skip(1)))
        }
    } else {
        normal(Normal::List(cons(ps[0].value, merge_positionals(ps.skip(1)))))
    }
}

/// The dictionary of the keyword arguments `ks`, entered in their order, so
/// that of two arguments of one name the later one stays.
pub open spec fn keyword_dictionary(ks: Seq<KeywordArgument>) -> Dictionary
    decreases ks.len(),
{
    if ks.len() == 0 {
        crate::runtime::dictionary::empty()
    } else {
        with(keyword_dictionary(ks.drop_last()), Key::String(ks.last().name), ks.last().value)
    }
}

/// `v` merged, unforced, with each dictionary value of `ds` in turn.
pub open spec fn merge_all(v: Value, ds: Seq<Value>) -> Value
    decreases ds.len(),
{
    if ds.len() == 0 {
        v
    } else {
        merge_call(merge_all(v, ds.drop_last()), ds.last())
    }
}

/// The bundle that `Arguments::new` builds.
pub open spec fn new_arguments(
    ps: Seq<PositionalArgument>,
    ks: Seq<KeywordArgument>,
    ds: Seq<Value>,
) -> ArgumentsView {
    let n = plain_prefix(ps, INLINE as nat) as int;
    let m = if ks.len() <= INLINE { ks.len() as int } else { INLINE as int };
    let overflow = if m < ks.len() {
        Some(normal(Normal::Dictionary(keyword_dictionary(ks.skip(m)))))
    } else {
        None
    };
    ArgumentsView {
        positionals: values(ps.take(n)),
        expanded_list: if n < ps.len() {
            Some(merge_positionals(ps.skip(n)))
        } else {
            None
        },
        keywords: ks.take(m),
        expanded_dict: if ds.len() == 0 {
            overflow
        } else {
            Some(
                merge_all(
                    match overflow {
                        Some(d) => d,
                        None => normal(Normal::Dictionary(crate::runtime::dictionary::empty())),
                    },
                    ds,
                ),
            )
        },
    }
}

/// The plain entries for the values `vs`.
pub open spec fn plain(vs: Seq<Value>) -> Seq<PositionalArgument> {
    Seq::new(vs.len(), |i: int| PositionalArgument { value: vs[i], expanded: false })
}

/// What a plain prefix is: its entries are plain, and it ends at the limit,
/// at the end of the entries or in front of a spread entry.
pub proof fn lemma_plain_prefix(ps: Seq<PositionalArgument>, limit: nat)
    ensures
        plain_prefix(ps, limit) <= limit,
        plain_prefix(ps, limit) <= ps.len(),
        forall|i: int| 0 <= i < plain_prefix(ps, limit) ==> !(#[trigger] ps[i]).expanded,
        plain_prefix(ps, limit) == limit || plain_prefix(ps, limit) == ps.len() || ps[plain_prefix(
            ps,
            limit,
        ) as int].expanded,
    decreases limit,
{
    if limit == 0 || ps.len() == 0 || ps[0].expanded {
    } else {
        lemma_plain_prefix(ps.skip(1), (limit - 1) as nat);
        assert forall|i: int| 0 <= i < plain_prefix(ps, limit) implies !(#[trigger] ps[i]).expanded by {
            if i > 0 {
                assert(ps[i] == ps.skip(1)[i - 1]);
            }
        }
    }
}

/// A prefix of plain entries that stops as a plain prefix does is the plain
/// prefix.
pub proof fn lemma_plain_prefix_is(ps: Seq<PositionalArgument>, limit: nat, n: nat)
    requires
        n <= limit,
        n <= ps.len(),
        forall|i: int| 0 <= i < n ==> !(#[trigger] ps[i]).expanded,
        n == limit || n == ps.len() || ps[n as int].expanded,
    ensures
        plain_prefix(ps, limit) == n,
    decreases limit,
{
    if limit == 0 || ps.len() == 0 || ps[0].expanded {
    } else {
        assert forall|i: int| 0 <= i < n - 1 implies !(#[trigger] ps.skip(1)[i]).expanded by {
            assert(ps.skip(1)[i] == ps[i + 1]);
        }
        if n >= 1 {
            if n < ps.len() {
                assert(ps.skip(1)[n - 1] == ps[n as int]);
            }
            lemma_plain_prefix_is(ps.skip(1), (limit - 1) as nat, (n - 1) as nat);
        }
    }
}

impl Arguments {
    /// The bundle for a call with the positional entries `ps`, the keyword
    /// arguments `ks` and the spread dictionaries `ds`.
    ///
    /// Plain positional entries are kept inline while there is room for
    /// them. From the first spread entry on, or from the fifth entry on, the
    /// entries become one list value. Keyword arguments are kept inline
    /// while there is room, the others become a dictionary, and the spread
    /// dictionaries are merged into it in their order.
    pub fn new(ps: &[PositionalArgument], ks: &[KeywordArgument], ds: &[Value]) -> (r: Arguments)
        ensures
            r@ == new_arguments(ps@, ks@, ds@),
    {
        let mut l: Option<Value> = None;
        let mut pq = new_positionals();
        let mut i: usize = 0;
        proof {
            if ps.len() == 0 {
                lemma_plain_prefix_is(ps@, 4, 0);
            }
            assert(values(ps@.take(0)) =~= Seq::<Value>::empty());
        }
        while i < ps.len()
            invariant_except_break
                i <= ps.len(),
                i <= 4,
                l is None,
                positional_items(pq) == values(ps@.take(i as int)),
                forall|j: int| 0 <= j < i ==> !(#[trigger] ps@[j]).expanded,
                i == ps.len() ==> i == plain_prefix(ps@, 4),
            ensures
                i <= ps.len(),
                positional_items(pq) == values(ps@.take(i as int)),
                i == plain_prefix(ps@, 4),
                l == if i < ps.len() {
                    Some(merge_positionals(ps@.skip(i as int)))
                } else {
                    None
                },
            decreases ps.len() - i,
        {
            if ps[i].expanded || !push_positional(&mut pq, ps[i].value.clone()) {
                proof {
                    lemma_plain_prefix_is(ps@, 4, i as nat);
                }
                l = Some(Self::merge_positional_arguments(ps, i));
                break;
            }
            proof {
                assert(values(ps@.take(i as int)).push(ps@[i as int].value) =~= values(
                    ps@.take(i + 1),
                ));
            }
            i = i + 1;
            proof {
                if i == ps.len() {
                    lemma_plain_prefix_is(ps@, 4, i as nat);
                }
            }
        }
        let mut kq = new_keywords();
        let mut d: Option<Value> = None;
        let mut j: usize = 0;
        proof {
            assert(ks@.take(0) =~= Seq::<KeywordArgument>::empty());
        }
        while j < ks.len()
            invariant_except_break
                j <= ks.len(),
                j <= 4,
                d is None,
                keyword_items(kq) == ks@.take(j as int),
            ensures
                j <= ks.len(),
                j <= 4,
                j == 4 || j == ks.len(),
                keyword_items(kq) == ks@.take(j as int),
                d == if j < ks.len() {
                    Some(normal(Normal::Dictionary(keyword_dictionary(ks@.skip(j as int)))))
                } else {
                    None
                },
            decreases ks.len() - j,
        {
            if !push_keyword(&mut kq, ks[j].clone()) {
                d = Some(Value::Normal(Normal::Dictionary(Self::merge_keyword_arguments(ks, j))));
                break;
            }
            proof {
                assert(ks@.take(j as int).push(ks@[j as int]) =~= ks@.take(j + 1));
            }
            j = j + 1;
        }
        if ds.len() > 0 {
            let mut v: Value = match d {
                Some(d) => d,
                None => Value::Normal(Normal::Dictionary(Dictionary::new())),
            };
            let ghost start = v;
            let mut n: usize = 0;
            proof {
                assert(ds@.take(0) =~= Seq::<Value>::empty());
            }
            while n < ds.len()
                invariant
                    n <= ds.len(),
                    v == merge_all(start, ds@.take(n as int)),
                decreases ds.len() - n,
            {
                proof {
                    assert(ds@.take(n + 1).drop_last() =~= ds@.take(n as int));
                }
                v = v.merge(ds[n].clone());
                n = n + 1;
            }
            proof {
                assert(ds@.take(ds.len() as int) =~= ds@);
            }
            d = Some(v);
        }
        Arguments { positionals: pq, expanded_list: l, keywords: kq, expanded_dict: d }
    }

    /// The bundle for a call with the plain positional arguments `vs` and
    /// nothing else.
    pub fn positionals(vs: &[Value]) -> (r: Arguments)
        ensures
            r@ == new_arguments(plain(vs@), Seq::empty(), Seq::empty()),
    {
        let mut ps: Vec<PositionalArgument> = Vec::new();
        let mut i: usize = 0;
        while i < vs.len()
            invariant
                i <= vs.len(),
                ps@ == plain(vs@.take(i as int)),
            decreases vs.len() - i,
        {
            ps.push(PositionalArgument::new(vs[i].clone(), false));
            proof {
                assert(ps@ =~= plain(vs@.take(i + 1)));
            }
            i = i + 1;
        }
        proof {
            assert(vs@.take(vs.len() as int) =~= vs@);
        }
        let ks: Vec<KeywordArgument> = Vec::new();
        let ds: Vec<Value> = Vec::new();
        Arguments::new(ps.as_slice(), ks.as_slice(), ds.as_slice())
    }

    /// The list value of the entries of `ps` from `from` on.
    fn merge_positional_arguments(ps: &[PositionalArgument], from: usize) -> (r: Value)
        requires
            from <= ps.len(),
        ensures
            r == merge_positionals(ps@.skip(from as int)),
    {
        let mut l: Value = Value::Normal(Normal::List(List::Empty));
        let mut i: usize = ps.len();
        proof {
            assert(ps@.skip(i as int) =~= Seq::<PositionalArgument>::empty());
        }
        if i > from && ps[i - 1].expanded {
            i = i - 1;
            l = ps[i].value.clone();
            proof {
                assert(ps@.skip(i as int).len() == 1);
                assert(ps@.skip(i as int)[0] == ps@[i as int]);
            }
        }
        while i > from
            invariant
                from <= i <= ps.len(),
                l == merge_positionals(ps@.skip(i as int)),
                i == ps.len() ==> i == from || !ps@[i - 1].expanded,
            decreases i,
        {
            i = i - 1;
            proof {
                assert(ps@.skip(i as int).skip(1) =~= ps@.skip(i + 1));
                assert(ps@.skip(i as int)[0] == ps@[i as int]);
            }
            if ps[i].expanded {
                l = ps[i].value.clone().merge(l);
            } else {
                l = Value::Normal(Normal::List(List::cons(ps[i].value.clone(), l)));
            }
        }
        l
    }

    /// The dictionary of the keyword arguments of `ks` from `from` on.
    fn merge_keyword_arguments(ks: &[KeywordArgument], from: usize) -> (r: Dictionary)
        requires
            from <= ks.len(),
        ensures
            r == keyword_dictionary(ks@.skip(from as int)),
    {
        let mut d: Dictionary = Dictionary::new();
        let mut i: usize = from;
        proof {
            assert(ks@.skip(from as int).take(0) =~= Seq::<KeywordArgument>::empty());
        }
        while i < ks.len()
            invariant
                from <= i <= ks.len(),
                d == keyword_dictionary(ks@.skip(from as int).take(i - from)),
            decreases ks.len() - i,
        {
            proof {
                let s = ks@.skip(from as int);
                assert(s.take(i - from + 1).drop_last() =~= s.take(i - from));
                assert(s.take(i - from + 1).last() == ks@[i as int]);
            }
            d = d.strict_insert(Key::String(ks[i].name.clone()), ks[i].value.clone());
            i = i + 1;
        }
        proof {
            let s = ks@.skip(from as int);
            assert(s.take(s.len() as int) =~= s);
        }
        d
    }
}

impl Arguments {
    /// The next positional argument, if there is one. Inline arguments come
    /// first, in their order. After them come the elements of the overflow
    /// list, each as a call that is not yet run, so that the list is forced
    /// only when an element is.
    pub fn next_positional(&mut self) -> (r: Option<Value>)
        ensures
            (r, final(self)@) == next_positional(old(self)@),
    {
        match pop_positional(&mut self.positionals) {
            Some(v) => Some(v),
            None => {
                match &self.expanded_list {
                    Some(l) => {
                        let first = Value::call1(Native::First, l.clone());
                        let rest = Value::call1(Native::Rest, l.clone());
                        self.expanded_list = Some(rest);
                        Some(first)
                    },
                    None => None,
                }
            },
        }
    }

    /// The inline positional arguments, which leave the bundle.
    fn drain_positionals(&mut self) -> (r: Vec<Value>)
        ensures
            r@ == old(self)@.positionals,
            final(self)@ == (ArgumentsView { positionals: Seq::empty(), ..old(self)@ }),
    {
        let mut vs: Vec<Value> = Vec::new();
        let _n: usize = positional_count(&self.positionals);
        proof {
            assert(vs@ + self@.positionals =~= old(self)@.positionals);
        }
        loop
            invariant
                vs@ + self@.positionals == old(self)@.positionals,
                self@ == (ArgumentsView { positionals: self@.positionals, ..old(self)@ }),
                self@.positionals.len() <= 4,
            ensures
                vs@ == old(self)@.positionals,
                self@ == (ArgumentsView { positionals: Seq::empty(), ..old(self)@ }),
            decreases self@.positionals.len(),
        {
            let ghost before = self@.positionals;
            match pop_positional(&mut self.positionals) {
                Some(v) => {
                    vs.push(v);
                    proof {
                        assert(vs@ + self@.positionals =~= old(self)@.positionals) by {
                            assert(seq![before[0]] + before.skip(1) =~= before);
                        }
                    }
                },
                None => {
                    proof {
                        assert(self@.positionals =~= Seq::<Value>::empty());
                        assert(vs@ + self@.positionals =~= vs@);
                    }
                    break;
                },
            }
        }
        vs
    }

    /// The inline keyword arguments, which leave the bundle.
    fn drain_keywords(&mut self) -> (r: Vec<KeywordArgument>)
        ensures
            r@ == old(self)@.keywords,
            final(self)@ == (ArgumentsView { keywords: Seq::empty(), ..old(self)@ }),
    {
        let mut ks: Vec<KeywordArgument> = Vec::new();
        let _n: usize = keyword_count(&self.keywords);
        proof {
            assert(ks@ + self@.keywords =~= old(self)@.keywords);
        }
        loop
            invariant
                ks@ + self@.keywords == old(self)@.keywords,
                self@ == (ArgumentsView { keywords: self@.keywords, ..old(self)@ }),
                self@.keywords.len() <= 4,
            ensures
                ks@ == old(self)@.keywords,
                self@ == (ArgumentsView { keywords: Seq::empty(), ..old(self)@ }),
            decreases self@.keywords.len(),
        {
            let ghost before = self@.keywords;
            match pop_keyword(&mut self.keywords) {
                Some(k) => {
                    ks.push(k);
                    proof {
                        assert(ks@ + self@.keywords =~= old(self)@.keywords) by {
                            assert(seq![before[0]] + before.skip(1) =~= before);
                        }
                    }
                },
                None => {
                    proof {
                        assert(self@.keywords =~= Seq::<KeywordArgument>::empty());
                        assert(ks@ + self@.keywords =~= ks@);
                    }
                    break;
                },
            }
        }
        ks
    }

    /// All remaining positional arguments as one list value, which leave the
    /// bundle. The inline arguments stand in front of the overflow list,
    /// which is shared as it is.
    pub fn rest_positionals(&mut self) -> (r: Value)
        ensures
            (r, final(self)@) == rest_positionals(old(self)@),
    {
        let ps = self.drain_positionals();
        let mut l: Option<Value> = None;
        std::mem::swap(&mut l, &mut self.expanded_list);
        match l {
            None => Value::Normal(Normal::List(List::new(ps.as_slice()))),
            Some(l) => List::strict_prepend(ps.as_slice(), l),
        }
    }

    /// All remaining keyword arguments as one dictionary value, which leave
    /// the bundle. The inline arguments are inserted into the overflow
    /// dictionary one after the other, by calls that are not yet run, so
    /// that an inline argument replaces an overflow entry of its name.
    pub fn rest_keywords(&mut self) -> (r: Value)
        ensures
            (r, final(self)@) == rest_keywords(old(self)@),
    {
        let ks = self.drain_keywords();
        let mut d: Option<Value> = None;
        std::mem::swap(&mut d, &mut self.expanded_dict);
        let mut v: Value = match d {
            Some(d) => d,
            None => Value::Normal(Normal::Dictionary(Dictionary::new())),
        };
        let ghost start = v;
        let mut i: usize = 0;
        proof {
            assert(ks@.take(0) =~= Seq::<KeywordArgument>::empty());
        }
        while i < ks.len()
            invariant
                i <= ks.len(),
                v == insert_all(start, ks@.take(i as int)),
            decreases ks.len() - i,
        {
            proof {
                assert(ks@.take(i + 1).drop_last() =~= ks@.take(i as int));
            }
            v = v.insert(Value::Normal(Normal::String(ks[i].name.clone())), ks[i].value.clone());
            i = i + 1;
        }
        proof {
            assert(ks@.take(ks.len() as int) =~= ks@);
        }
        v
    }

    /// The keyword argument named `name`, which leaves the bundle. The
    /// inline arguments are searched first; where none has the name, the
    /// overflow dictionary is forced and searched, and is left without the
    /// entry that was found. Where neither has the name the argument is
    /// missing, and the bundle stays as it was.
    pub fn search_keyword(&mut self, name: &str, fuel: usize) -> (r: Result<Value, Error>)
        ensures
            match r {
                Ok(v) => search_keyword(old(self)@, name@, fuel as nat) == Ok::<
                    (Value, ArgumentsView),
                    Error,
                >((v, final(self)@)),
                Err(e) => search_keyword(old(self)@, name@, fuel as nat) == Err::<
                    (Value, ArgumentsView),
                    Error,
                >(e) && final(self)@ == old(self)@,
            },
        decreases fuel, 2nat, 0nat,
    {
        let wanted: String = String::from_str(name);
        let n: usize = keyword_count(&self.keywords);
        let ghost orig = self@.keywords;
        let mut found: Option<Value> = None;
        let ghost mut at: int = 0;
        let mut i: usize = 0;
        proof {
            lemma_position(orig, name@);
            assert(orig.skip(0) + orig.take(0) =~= orig);
        }
        while i < n
            invariant
                i <= n,
                n == orig.len(),
                n <= 4,
                orig == old(self)@.keywords,
                wanted@ == name@,
                self@ == (ArgumentsView { keywords: self@.keywords, ..old(self)@ }),
                found is None ==> self@.keywords == orig.skip(i as int) + orig.take(i as int)
                    && position(orig, name@) >= i,
                found is Some ==> 0 <= at < i && at == position(orig, name@) && found
                    == Some(orig[at].value) && self@.keywords == orig.skip(i as int) + orig.take(
                    i as int,
                ).remove(at),
            decreases n - i,
        {
            let ghost before = self@.keywords;
            proof {
                lemma_position(orig, name@);
            }
            let k = match pop_keyword(&mut self.keywords) {
                Some(k) => k,
                None => {
                    proof {
                        assert(before.len() == 0);
                        assert(false);
                    }
                    return Err(Error::Argument(ArgumentError::MissingKeyword));
                },
            };
            assert(k == orig[i as int]);
            if found.is_none() && k.name == wanted {
                proof {
                    at = i as int;
                    assert(orig.skip(i as int).skip(1) + orig.take(i as int) =~= orig.skip(
                        i + 1,
                    ) + orig.take(i + 1).remove(at));
                }
                found = Some(k.value);
            } else {
                let pushed = push_keyword(&mut self.keywords, k);
                assert(pushed);
                proof {
                    if found is None {
                        assert((orig.skip(i as int) + orig.take(i as int)).skip(1).push(k)
                            =~= orig.skip(i + 1) + orig.take(i + 1));
                    } else {
                        assert((orig.skip(i as int) + orig.take(i as int).remove(at)).skip(
                            1,
                        ).push(k) =~= orig.skip(i + 1) + orig.take(i + 1).remove(at));
                    }
                }
            }
            i = i + 1;
        }
        proof {
            lemma_position(orig, name@);
            assert(orig.take(n as int) =~= orig);
            assert(orig.skip(n as int) + orig =~= orig);
            if found is Some {
                assert(orig.skip(n as int) + orig.remove(at) =~= orig.remove(at));
            }
        }
        match found {
            Some(v) => Ok(v),
            None => {
                let d = match &self.expanded_dict {
                    None => {
                        return Err(Error::Argument(ArgumentError::MissingKeyword));
                    },
                    Some(v) => match v.dictionary(fuel) {
                        Err(e) => {
                            return Err(e);
                        },
                        Ok(d) => d,
                    },
                };
                let key = Key::String(wanted);
                match d.strict_find(&key) {
                    None => Err(Error::Argument(ArgumentError::MissingKeyword)),
                    Some(v) => {
                        match d.strict_delete(&key) {
                            Some(rest) => {
                                self.expanded_dict = Some(Value::Normal(Normal::Dictionary(rest)));
                            },
                            None => {},
                        }
                        Ok(v)
                    },
                }
            },
        }
    }

    /// How many positional arguments are left: the inline ones and the
    /// elements of the overflow list, which is forced and walked to its end.
    fn positionals_left(&self, fuel: usize) -> (r: Result<usize, Error>)
        ensures
            r == positionals_left(self@, fuel as nat),
        decreases fuel, 4nat, 0nat,
    {
        let np: usize = positional_count(&self.positionals);
        match &self.expanded_list {
            None => Ok(np),
            Some(l) => match l.list(fuel) {
                Err(e) => Err(e),
                Ok(list) => match list.elements(fuel) {
                    Err(e) => Err(e),
                    Ok(es) => {
                        let n: usize = es.len();
                        Ok(
                            if n <= usize::MAX - np {
                                n + np
                            } else {
                                usize::MAX
                            },
                        )
                    },
                },
            },
        }
    }

    /// How many keyword arguments are left: the inline ones and the entries
    /// of the overflow dictionary, which is forced.
    fn keywords_left(&self, fuel: usize) -> (r: Result<usize, Error>)
        ensures
            r == keywords_left(self@, fuel as nat),
        decreases fuel, 4nat, 0nat,
    {
        let nk: usize = keyword_count(&self.keywords);
        match &self.expanded_dict {
            None => Ok(nk),
            Some(v) => match v.dictionary(fuel) {
                Err(e) => Err(e),
                Ok(d) => {
                    let size: usize = d.size();
                    Ok(
                        if size <= usize::MAX - nk {
                            size + nk
                        } else {
                            usize::MAX
                        },
                    )
                },
            },
        }
    }

    /// Succeeds where the bundle is used up. The overflow list is forced and
    /// walked: a failure to do so is passed on, and any positional argument
    /// that is left, inline or in the overflow list, fails the check with
    /// their number. Then the overflow dictionary is forced: a failure to do
    /// so is passed on, and any keyword argument that is left, inline or in
    /// the overflow dictionary, fails the check with their number.
    pub fn check_empty(self, fuel: usize) -> (r: Result<(), Error>)
        ensures
            r == check_empty(self@, fuel as nat),
        decreases fuel, 5nat, 0nat,
    {
        match self.positionals_left(fuel) {
            Err(e) => Err(e),
            Ok(p) => {
                if p > 0 {
                    return Err(Error::Argument(ArgumentError::PositionalsLeft(p)));
                }
                match self.keywords_left(fuel) {
                    Err(e) => Err(e),
                    Ok(k) => {
                        if k > 0 {
                            Err(Error::Argument(ArgumentError::KeywordsLeft(k)))
                        } else {
                            Ok(())
                        }
                    },
                }
            },
        }
    }

    /// The bundle that a thunk kept, ready for use.
    pub fn thaw(frozen: &Frozen) -> (r: Arguments)
        ensures
            r@ == frozen@,
    {
        let mut pq = new_positionals();
        let mut ps: Values = frozen.positionals();
        proof {
            assert(positional_items(pq) + ps@ =~= frozen@.positionals);
        }
        loop
            invariant
                positional_items(pq) + ps@ == frozen@.positionals,
                frozen@.positionals.len() <= 4,
            ensures
                positional_items(pq) == frozen@.positionals,
            decreases ps,
        {
            match ps {
                Values::End => {
                    proof {
                        assert(positional_items(pq) + Seq::<Value>::empty() =~= positional_items(
                            pq,
                        ));
                    }
                    break;
                },
                Values::More(l) => {
                    let ghost before = positional_items(pq);
                    proof {
                        assert((before + (seq![l.value] + l.next@)).len() == before.len() + 1
                            + l.next@.len());
                    }
                    let pushed = push_positional(&mut pq, l.value.clone());
                    assert(pushed);
                    proof {
                        assert(before.push(l.value) + l.next@ =~= before + (seq![l.value]
                            + l.next@));
                    }
                    ps = l.next.clone();
                },
            }
        }
        let mut kq = new_keywords();
        let mut ks: Keywords = frozen.keywords();
        proof {
            assert(keyword_items(kq) + ks@ =~= frozen@.keywords);
        }
        loop
            invariant
                keyword_items(kq) + ks@ == frozen@.keywords,
                frozen@.keywords.len() <= 4,
            ensures
                keyword_items(kq) == frozen@.keywords,
            decreases ks,
        {
            match ks {
                Keywords::End => {
                    proof {
                        assert(keyword_items(kq) + Seq::<KeywordArgument>::empty()
                            =~= keyword_items(kq));
                    }
                    break;
                },
                Keywords::More(l) => {
                    let ghost before = keyword_items(kq);
                    proof {
                        assert((before + (seq![l.argument] + l.next@)).len() == before.len() + 1
                            + l.next@.len());
                    }
                    let pushed = push_keyword(&mut kq, l.argument.clone());
                    assert(pushed);
                    proof {
                        assert(before.push(l.argument) + l.next@ =~= before + (seq![l.argument]
                            + l.next@));
                    }
                    ks = l.next.clone();
                },
            }
        }
        Arguments {
            positionals: pq,
            expanded_list: frozen.expanded_list(),
            keywords: kq,
            expanded_dict: frozen.expanded_dict(),
        }
    }

    /// The bundle as a thunk keeps it.
    pub fn freeze(self) -> (r: Frozen)
        ensures
            r == frozen_of(self@),
            r@ == self@,
    {
        let mut this = self;
        let _np: usize = positional_count(&this.positionals);
        let _nk: usize = keyword_count(&this.keywords);
        let ps = this.drain_positionals();
        let ks = this.drain_keywords();
        Frozen::new(ps, this.expanded_list, ks, this.expanded_dict)
    }
}

impl Value {
    /// The call of the function value `f` on the arguments `args`, not yet
    /// run.
    pub fn app(f: Value, args: Arguments) -> (r: Value)
        ensures
            r == thunk(f, args@),
    {
        Value::Thunk(Arc::new(Thunk { function: f, arguments: args.freeze() }))
    }

    /// The call of the function value `f` on the plain positional arguments
    /// `vs`, not yet run.
    pub fn papp(f: Value, vs: &[Value]) -> (r: Value)
        ensures
            r == thunk(f, new_arguments(plain(vs@), Seq::empty(), Seq::empty())),
    {
        Value::app(f, Arguments::positionals(vs))
    }

    /// The call of a native function on one argument, not yet run.
    pub(crate) fn call1(n: Native, a: Value) -> (r: Value)
        ensures
            r == call(native(n), seq![a]),
    {
        let mut vs: Vec<Value> = Vec::new();
        vs.push(a);
        proof {
            assert(vs@ =~= seq![a]);
        }
        Value::call(Value::Normal(Normal::Function(Function::Native(n))), vs)
    }

    /// The insertion of `v` under `k` into this dictionary value, not yet
    /// run.
    pub fn insert(self, k: Value, v: Value) -> (r: Value)
        ensures
            r == insert_call(self, k, v),
    {
        let mut vs: Vec<Value> = Vec::new();
        vs.push(self);
        vs.push(k);
        vs.push(v);
        proof {
            assert(vs@ =~= seq![self, k, v]);
        }
        Value::call(Value::Normal(Normal::Function(Function::Native(Native::Insert))), vs)
    }
}

impl Value {
    /// The merge of this value with `other`, not yet run.
    pub fn merge(self, other: Value) -> (r: Value)
        ensures
            r == merge_call(self, other),
    {
        let mut vs: Vec<Value> = Vec::new();
        vs.push(self);
        vs.push(other);
        proof {
            assert(vs@ =~= seq![self, other]);
        }
        Value::call(Value::Normal(Normal::Function(Function::Native(Native::Merge))), vs)
    }
}

} // verus!
