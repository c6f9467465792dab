//! What holds of lists, dictionaries, argument bundles and binding, for all
//! values.

use vstd::prelude::*;
use crate::runtime::arguments::{
    lemma_plain_prefix, merge_positionals, new_arguments, plain, plain_prefix, values,
};
use crate::runtime::dictionary::{
    lemma_restore, lemma_with, well_formed, with, without, Dictionary,
};
use crate::runtime::error::Error;
use crate::runtime::key::Key;
use crate::runtime::list::{first, lemma_list_of, list_of, prepend};
use crate::runtime::error::ArgumentError;
use crate::runtime::semantics::{
    apply, bind, bind_keyword_part, bind_keywords, bind_optional_keywords, bind_optionals,
    bind_positional_part, bind_required, check_empty, concat, elements, first_call,
    force_dictionary, insert_call, keywords_left, native_signature, positionals_left,
    rest_call, run_native, saturating_sum,
    delete, find, force, force_list, insert, instantiate, purify, rest, rest_positionals,
};
use crate::runtime::signature::{OptionalView, SignatureView};
use crate::runtime::arguments::merge_call;
use crate::runtime::arguments::{keyword_dictionary, merge_all};
use crate::runtime::dictionary::{
    empty, law_empty, lemma_merged, lemma_with_all, map_of, merged, with_all,
};
use crate::runtime::semantics::{insert_all, rest_keywords};
use crate::runtime::value::{call, law_frozen_of, native, ArgumentsView, Function, Native};
use crate::runtime::value::{
    cons, normal, KeywordArgument, List, Normal, PositionalArgument, Value,
};

verus! {

/// A normal form is its own result, whatever the fuel.
pub proof fn law_normal_forces_to_itself(n: Normal, fuel: nat)
    ensures
        force(normal(n), fuel) == Ok::<Normal, Error>(n),
{
}

/// The first element of `cons(h, t)` is `h`, and its rest is the list that
/// `t` forces to. For a tail that is a list already, the rest is that list.
pub proof fn law_cons(h: Value, t: Value, l: List, fuel: nat)
    ensures
        first(cons(h, t)) == Ok::<Value, Error>(h),
        rest(cons(h, t), fuel) == force_list(t, fuel),
        rest(cons(h, normal(Normal::List(l))), fuel) == Ok::<List, Error>(l),
{
}

/// After `v` is inserted under `k`, the dictionary holds `v` under `k`, and
/// under every other key what it held before.
pub proof fn law_insert_find(d: Dictionary, k: Value, v: Value, other: Value, fuel: nat)
    requires
        well_formed(d),
        purify(k, fuel) is Ok,
    ensures
        insert(d, k, v, fuel) is Ok,
        find(insert(d, k, v, fuel)->Ok_0, k, fuel) == Ok::<Value, Error>(v),
        purify(other, fuel) is Ok && purify(other, fuel)->Ok_0@ != purify(k, fuel)->Ok_0@ ==> find(
            insert(d, k, v, fuel)->Ok_0,
            other,
            fuel,
        ) == find(d, other, fuel),
{
    lemma_with(d, purify(k, fuel)->Ok_0, v);
}

/// Deleting a key that the dictionary does not hold fails with
/// `KeyNotFound` and that key.
pub proof fn law_delete_absent(d: Dictionary, k: Value, fuel: nat)
    requires
        purify(k, fuel) is Ok,
        !d@.contains_key(purify(k, fuel)->Ok_0@),
    ensures
        delete(d, k, fuel) == Err::<Dictionary, Error>(Error::KeyNotFound(purify(k, fuel)->Ok_0)),
{
}

/// Inserting under a key that the dictionary does not hold and deleting that
/// key again gives the dictionary back as it was.
pub proof fn law_insert_delete(d: Dictionary, k: Value, v: Value, fuel: nat)
    requires
        well_formed(d),
        purify(k, fuel) is Ok,
        !d@.contains_key(purify(k, fuel)->Ok_0@),
    ensures
        insert(d, k, v, fuel) is Ok,
        delete(insert(d, k, v, fuel)->Ok_0, k, fuel) == Ok::<Dictionary, Error>(d),
{
    let key = purify(k, fuel)->Ok_0;
    lemma_with(d, key, v);
    lemma_restore(d, key, v);
}

/// The plain entries for given values make the list of those values.
pub proof fn law_plain_positionals(vs: Seq<Value>)
    ensures
        merge_positionals(plain(vs)) == normal(Normal::List(list_of(vs))),
    decreases vs.len(),
{
    if vs.len() > 0 {
        law_plain_positionals(vs.skip(1));
        assert(plain(vs).skip(1) =~= plain(vs.skip(1)));
    }
}

/// Plain entries in front of one spread entry make a list that has the plain
/// values in front of the spread value itself: the spread list is the tail
/// as it stands, and none of its cells is built anew.
pub proof fn law_final_spread(vs: Seq<Value>, l: Value)
    ensures
        merge_positionals(plain(vs).push(PositionalArgument { value: l, expanded: true }))
            == prepend(vs, l),
    decreases vs.len(),
{
    let ps = plain(vs).push(PositionalArgument { value: l, expanded: true });
    if vs.len() > 0 {
        law_final_spread(vs.skip(1), l);
        assert(ps.skip(1) =~= plain(vs.skip(1)).push(
            PositionalArgument { value: l, expanded: true },
        ));
    }
}

/// Plain values in front of what the remaining entries make is what all the
/// entries make.
proof fn lemma_merge_plain_prefix(ps: Seq<PositionalArgument>, n: int)
    requires
        0 <= n <= ps.len(),
        forall|i: int| 0 <= i < n ==> !(#[trigger] ps[i]).expanded,
    ensures
        prepend(values(ps.take(n)), merge_positionals(ps.skip(n))) == merge_positionals(ps),
    decreases n,
{
    if n == 0 {
        assert(ps.skip(0) =~= ps);
        assert(values(ps.take(0)) =~= Seq::<Value>::empty());
    } else {
        let qs = ps.skip(1);
        assert forall|i: int| 0 <= i < n - 1 implies !(#[trigger] qs[i]).expanded by {
            assert(qs[i] == ps[i + 1]);
        }
        lemma_merge_plain_prefix(qs, n - 1);
        assert(values(ps.take(n)).skip(1) =~= values(qs.take(n - 1)));
        assert(qs.skip(n - 1) =~= ps.skip(n));
        assert(values(ps.take(n))[0] == ps[0].value);
    }
}

/// However the entries of a call were divided between the inline values and
/// the overflow list, taking all positional arguments gives the one list of
/// all entries, in their order from left to right.
pub proof fn law_rest_positionals(
    ps: Seq<PositionalArgument>,
    ks: Seq<KeywordArgument>,
    ds: Seq<Value>,
)
    ensures
        rest_positionals(new_arguments(ps, ks, ds)).0 == merge_positionals(ps),
{
    let n = plain_prefix(ps, 4) as int;
    lemma_plain_prefix(ps, 4);
    lemma_merge_plain_prefix(ps, n);
    if n == ps.len() {
        assert(ps.skip(n) =~= Seq::<PositionalArgument>::empty());
        lemma_list_of(values(ps.take(n)));
    }
}

/// Taking all positional arguments of a call with plain arguments gives the
/// list of those arguments.
pub proof fn law_positionals_in_order(vs: Seq<Value>)
    ensures
        rest_positionals(new_arguments(plain(vs), Seq::empty(), Seq::empty())).0 == normal(
            Normal::List(list_of(vs)),
        ),
{
    law_rest_positionals(plain(vs), Seq::empty(), Seq::empty());
    law_plain_positionals(vs);
}

/// The bundle that holds the values `vs` inline and nothing else.
pub open spec fn inline(vs: Seq<Value>) -> ArgumentsView {
    ArgumentsView {
        positionals: vs,
        expanded_list: None,
        keywords: Seq::empty(),
        expanded_dict: None,
    }
}

/// The values of the optional parameters `os` for the arguments `vs`: the
/// argument at its place for each parameter that has one, and for each other
/// the value of its default, where `before` are the values bound in front
/// of these parameters.
pub open spec fn optional_values(os: Seq<OptionalView>, vs: Seq<Value>, before: Seq<Value>) -> Seq<
    Value,
>
    decreases os.len(),
{
    if os.len() == 0 {
        Seq::empty()
    } else {
        let v = if vs.len() > 0 {
            vs[0]
        } else {
            instantiate(os[0].default, before)
        };
        seq![v] + optional_values(os.skip(1), after(vs, 1), before.push(v))
    }
}

/// The values `vs` without the first `n` of them, or nothing if there are no
/// more than `n`.
pub open spec fn after(vs: Seq<Value>, n: nat) -> Seq<Value> {
    if n <= vs.len() {
        vs.skip(n as int)
    } else {
        Seq::empty()
    }
}

/// Up to four plain arguments are all kept inline.
pub proof fn law_few_positionals_are_inline(vs: Seq<Value>)
    requires
        vs.len() <= 4,
    ensures
        new_arguments(plain(vs), Seq::empty(), Seq::empty()) == inline(vs),
{
    let ps = plain(vs);
    crate::runtime::arguments::lemma_plain_prefix_is(ps, 4, vs.len());
    assert(ps.take(vs.len() as int) =~= ps);
    assert(values(ps) =~= vs);
    assert(Seq::<KeywordArgument>::empty().take(0) =~= Seq::<KeywordArgument>::empty());
}

proof fn lemma_bind_required_inline(n: nat, vs: Seq<Value>)
    ensures
        bind_required(n, inline(vs)) == if n <= vs.len() {
            Ok::<(Seq<Value>, ArgumentsView), Error>((vs.take(n as int), inline(vs.skip(n as int))))
        } else {
            Err(Error::Argument(ArgumentError::MissingPositional))
        },
    decreases n,
{
    if n == 0 {
        assert(vs.take(0) =~= Seq::<Value>::empty());
        assert(vs.skip(0) =~= vs);
    } else if vs.len() > 0 {
        lemma_bind_required_inline((n - 1) as nat, vs.skip(1));
        if n <= vs.len() {
            assert(seq![vs[0]] + vs.skip(1).take(n - 1) =~= vs.take(n as int));
            assert(vs.skip(1).skip(n - 1) =~= vs.skip(n as int));
        }
    }
}

proof fn lemma_bind_optionals_inline(os: Seq<OptionalView>, vs: Seq<Value>, before: Seq<Value>)
    ensures
        bind_optionals(os, inline(vs), before) == (
            optional_values(os, vs, before),
            inline(after(vs, os.len())),
        ),
        optional_values(os, vs, before).len() == os.len(),
    decreases os.len(),
{
    if os.len() == 0 {
        assert(vs.skip(0) =~= vs);
    } else if vs.len() > 0 {
        lemma_bind_optionals_inline(os.skip(1), vs.skip(1), before.push(vs[0]));
        assert(after(vs.skip(1), os.skip(1).len()) =~= after(vs, os.len()));
    } else {
        let v = instantiate(os[0].default, before);
        lemma_bind_optionals_inline(os.skip(1), vs, before.push(v));
        assert(after(vs, 1) =~= vs);
        assert(after(vs, os.skip(1).len()) =~= after(vs, os.len()));
    }
}

/// Binding a signature without keyword parameters against up to four plain
/// arguments. With fewer arguments than required parameters a positional
/// argument is missing. Else the required parameters take the first
/// arguments, and each optional parameter the next one, or the value of its
/// default where the arguments have run out. A rest parameter takes the list of the
/// arguments that are left, which may be empty; without a rest parameter an
/// argument that is left fails the binding.
pub proof fn law_bind_positionals(s: SignatureView, vs: Seq<Value>, fuel: nat)
    requires
        vs.len() <= 4,
        s.keywords.len() == 0,
        s.optional_keywords.len() == 0,
        s.rest_keywords.len() == 0,
    ensures
        bind(s, inline(vs), fuel) == if vs.len() < s.positionals.len() {
            Err::<Seq<Value>, Error>(Error::Argument(ArgumentError::MissingPositional))
        } else {
            let left = after(vs, s.positionals.len() + s.optionals.len());
            let bound = vs.take(s.positionals.len() as int) + optional_values(
                s.optionals,
                vs.skip(s.positionals.len() as int),
                vs.take(s.positionals.len() as int),
            );
            if s.rest.len() > 0 {
                Ok(bound.push(normal(Normal::List(list_of(left)))))
            } else if left.len() > 0 {
                Err(Error::Argument(ArgumentError::PositionalsLeft(left.len() as usize)))
            } else {
                Ok(bound)
            }
        },
{
    let r = s.positionals.len();
    lemma_bind_required_inline(r, vs);
    if r <= vs.len() {
        let v1 = vs.take(r as int);
        lemma_bind_optionals_inline(s.optionals, vs.skip(r as int), v1);
        let v2 = optional_values(s.optionals, vs.skip(r as int), v1);
        let left = after(vs.skip(r as int), s.optionals.len());
        assert(left =~= after(vs, r + s.optionals.len()));
        let empty = Seq::<Value>::empty();
        let (ps, b) = bind_positional_part(s, inline(vs))->Ok_0;
        assert(b.keywords =~= Seq::<KeywordArgument>::empty());
        assert(bind_keywords(s.keywords, b, fuel) == Ok::<(Seq<Value>, ArgumentsView), Error>(
            (empty, b),
        ));
        assert(bind_optional_keywords(s.optional_keywords, b, fuel, ps + empty) == Ok::<
            (Seq<Value>, ArgumentsView),
            Error,
        >((empty, b)));
        assert(empty + empty =~= empty);
        assert(bind_keyword_part(s, b, fuel, ps) == Ok::<(Seq<Value>, ArgumentsView), Error>(
            (empty, b),
        ));
        assert(ps + empty =~= ps);
        if s.rest.len() > 0 {
            assert(b == inline(empty));
            assert(ps =~= (v1 + v2).push(normal(Normal::List(list_of(left)))));
        } else {
            assert(b == inline(left));
        }
    }
}

/// Walking a list of given values gives those values, with fuel for each
/// of them.
pub proof fn law_elements_of_a_list(ws: Seq<Value>, fuel: nat)
    requires
        fuel >= ws.len(),
    ensures
        elements(list_of(ws), fuel) == Ok::<Seq<Value>, Error>(ws),
    decreases ws.len(),
{
    if ws.len() > 0 {
        let f = (fuel - 1) as nat;
        let tail = normal(Normal::List(list_of(ws.skip(1))));
        law_elements_of_a_list(ws.skip(1), f);
        assert(list_of(ws) == cons(ws[0], tail));
        assert(force_list(tail, f) == Ok::<List, Error>(list_of(ws.skip(1))));
        assert(seq![ws[0]] + ws.skip(1) =~= ws);
        assert(elements(cons(ws[0], tail), fuel) == Ok::<Seq<Value>, Error>(
            seq![ws[0]] + ws.skip(1),
        ));
    } else {
        assert(ws =~= Seq::<Value>::empty());
    }
}

/// A bundle is used up only when its overflow list is: positional arguments
/// that are left in the overflow list fail the check, and are counted with
/// the inline ones.
pub proof fn law_overflow_is_checked(a: ArgumentsView, ws: Seq<Value>, fuel: nat)
    requires
        a.expanded_list == Some(normal(Normal::List(list_of(ws)))),
        fuel >= ws.len(),
    ensures
        a.positionals.len() + ws.len() > 0 ==> check_empty(a, fuel) == Err::<(), Error>(
            Error::Argument(
                ArgumentError::PositionalsLeft(saturating_sum(a.positionals.len(), ws.len())),
            ),
        ),
        a.positionals.len() + ws.len() == 0 ==> check_empty(a, fuel) == match keywords_left(
            a,
            fuel,
        ) {
            Err(e) => Err::<(), Error>(e),
            Ok(k) => if k > 0 {
                Err(Error::Argument(ArgumentError::KeywordsLeft(k)))
            } else {
                Ok(())
            },
        },
{
    law_elements_of_a_list(ws, fuel);
}

/// A failure to force the overflow list is the outcome of the check.
pub proof fn law_overflow_failure_is_passed_on(a: ArgumentsView, l: Value, e: Error, fuel: nat)
    requires
        a.expanded_list == Some(l),
        force_list(l, fuel) == Err::<List, Error>(e),
    ensures
        check_empty(a, fuel) == Err::<(), Error>(e),
{
}

proof fn lemma_bind_required_front(n: nat, a: ArgumentsView)
    requires
        n <= a.positionals.len(),
    ensures
        bind_required(n, a) == Ok::<(Seq<Value>, ArgumentsView), Error>(
            (
                a.positionals.take(n as int),
                ArgumentsView { positionals: a.positionals.skip(n as int), ..a },
            ),
        ),
    decreases n,
{
    if n == 0 {
        assert(a.positionals.take(0) =~= Seq::<Value>::empty());
        assert(a.positionals.skip(0) =~= a.positionals);
    } else {
        let b = ArgumentsView { positionals: a.positionals.skip(1), ..a };
        lemma_bind_required_front((n - 1) as nat, b);
        assert(seq![a.positionals[0]] + b.positionals.take(n - 1) =~= a.positionals.take(
            n as int,
        ));
        assert(b.positionals.skip(n - 1) =~= a.positionals.skip(n as int));
    }
}

proof fn lemma_bind_optionals_front(os: Seq<OptionalView>, a: ArgumentsView, before: Seq<Value>)
    requires
        os.len() <= a.positionals.len(),
    ensures
        bind_optionals(os, a, before) == (
            a.positionals.take(os.len() as int),
            ArgumentsView { positionals: a.positionals.skip(os.len() as int), ..a },
        ),
    decreases os.len(),
{
    if os.len() == 0 {
        assert(a.positionals.take(0) =~= Seq::<Value>::empty());
        assert(a.positionals.skip(0) =~= a.positionals);
    } else {
        let b = ArgumentsView { positionals: a.positionals.skip(1), ..a };
        lemma_bind_optionals_front(os.skip(1), b, before.push(a.positionals[0]));
        assert(seq![a.positionals[0]] + b.positionals.take(os.len() - 1) =~= a.positionals.take(
            os.len() as int,
        ));
        assert(b.positionals.skip(os.len() - 1) =~= a.positionals.skip(os.len() as int));
    }
}

/// More than four plain arguments are four inline values and the list of
/// the others.
pub proof fn law_many_positionals_overflow(vs: Seq<Value>)
    requires
        vs.len() > 4,
    ensures
        new_arguments(plain(vs), Seq::empty(), Seq::empty()) == (ArgumentsView {
            positionals: vs.take(4),
            expanded_list: Some(normal(Normal::List(list_of(vs.skip(4))))),
            keywords: Seq::empty(),
            expanded_dict: None,
        }),
{
    let ps = plain(vs);
    crate::runtime::arguments::lemma_plain_prefix_is(ps, 4, 4);
    assert(values(ps.take(4)) =~= vs.take(4));
    assert(ps.skip(4) =~= plain(vs.skip(4)));
    law_plain_positionals(vs.skip(4));
    assert(Seq::<KeywordArgument>::empty().take(0) =~= Seq::<KeywordArgument>::empty());
}

/// Binding a signature without a rest parameter and without keyword
/// parameters against more plain arguments than it has parameters fails, and
/// the failure names how many arguments are left, those in the overflow list
/// too. The signature has no more than four parameters here, so that all of
/// them are bound from the inline values.
pub proof fn law_bind_counts_every_surplus(s: SignatureView, vs: Seq<Value>, fuel: nat)
    requires
        vs.len() > 4,
        fuel >= vs.len(),
        s.positionals.len() + s.optionals.len() <= 4,
        s.rest.len() == 0,
        s.keywords.len() == 0,
        s.optional_keywords.len() == 0,
        s.rest_keywords.len() == 0,
    ensures
        bind(s, new_arguments(plain(vs), Seq::empty(), Seq::empty()), fuel) == Err::<
            Seq<Value>,
            Error,
        >(
            Error::Argument(
                ArgumentError::PositionalsLeft(
                    saturating_sum(
                        (4 - s.positionals.len() - s.optionals.len()) as nat,
                        (vs.len() - 4) as nat,
                    ),
                ),
            ),
        ),
{
    law_many_positionals_overflow(vs);
    let a = new_arguments(plain(vs), Seq::empty(), Seq::empty());
    let r = s.positionals.len();
    lemma_bind_required_front(r, a);
    let v1 = a.positionals.take(r as int);
    let a1 = ArgumentsView { positionals: a.positionals.skip(r as int), ..a };
    lemma_bind_optionals_front(s.optionals, a1, v1);
    let a2 = ArgumentsView { positionals: a1.positionals.skip(s.optionals.len() as int), ..a1 };
    let ps = bind_positional_part(s, a)->Ok_0.0;
    let empty = Seq::<Value>::empty();
    assert(bind_positional_part(s, a)->Ok_0.1 == a2);
    assert(bind_keywords(s.keywords, a2, fuel) == Ok::<(Seq<Value>, ArgumentsView), Error>(
        (empty, a2),
    ));
    assert(bind_optional_keywords(s.optional_keywords, a2, fuel, ps + empty) == Ok::<
        (Seq<Value>, ArgumentsView),
        Error,
    >((empty, a2)));
    assert(empty + empty =~= empty);
    assert(bind_keyword_part(s, a2, fuel, ps) == Ok::<(Seq<Value>, ArgumentsView), Error>(
        (empty, a2),
    ));
    law_overflow_is_checked(a2, vs.skip(4), fuel);
}

proof fn lemma_native_bind(n: Native, vs: Seq<Value>, fuel: nat)
    requires
        native_signature(n).rest.len() == 0,
        vs.len() == native_signature(n).positionals.len(),
        vs.len() <= 4,
    ensures
        bind(native_signature(n), inline(vs), fuel) == Ok::<Seq<Value>, Error>(vs),
{
    let s = native_signature(n);
    law_bind_positionals(s, vs, fuel);
    assert(vs.take(s.positionals.len() as int) =~= vs);
    assert(optional_values(s.optionals, vs.skip(s.positionals.len() as int), vs)
        =~= Seq::<Value>::empty());
    assert(vs + Seq::<Value>::empty() =~= vs);
}

/// What a call of a native function on plain arguments, all kept inline,
/// forces to: the function binds exactly as many arguments as it has
/// parameters and runs on them, and what it returns is forced in turn.
pub proof fn law_native_call(n: Native, vs: Seq<Value>, fuel: nat)
    requires
        native_signature(n).rest.len() == 0,
        vs.len() == native_signature(n).positionals.len(),
        vs.len() <= 4,
    ensures
        force(call(native(n), vs), fuel + 1) == match run_native(n, vs, fuel) {
            Err(e) => Err::<Normal, Error>(e),
            Ok(r) => force(r, fuel),
        },
{
    law_frozen_of(inline(vs));
    lemma_native_bind(n, vs, fuel);
    let v = call(native(n), vs);
    assert(crate::runtime::fuel::arguments_of(v) == inline(vs));
    assert(crate::runtime::fuel::function_of(v) == native(n));
    assert(force(native(n), fuel) == Ok::<Normal, Error>(Normal::Function(Function::Native(n))));
    assert(apply(Function::Native(n), inline(vs), fuel) == match bind(
        native_signature(n),
        inline(vs),
        fuel,
    ) {
        Err(e) => Err::<Value, Error>(e),
        Ok(ws) => run_native(n, ws, fuel),
    });
}

/// The call for the first element of a list value forces the list, takes
/// its first element and forces that.
pub proof fn law_first_call(l: Value, fuel: nat)
    ensures
        force(first_call(l), fuel + 1) == match force_list(l, fuel) {
            Err(e) => Err::<Normal, Error>(e),
            Ok(list) => match first(list) {
                Err(e) => Err(e),
                Ok(v) => force(v, fuel),
            },
        },
{
    law_native_call(Native::First, seq![l], fuel);
}

/// The call for the rest of a list value forces the list and gives the
/// list behind its first element.
pub proof fn law_rest_call(l: Value, fuel: nat)
    ensures
        force(rest_call(l), fuel + 1) == match force_list(l, fuel) {
            Err(e) => Err::<Normal, Error>(e),
            Ok(list) => match rest(list, fuel) {
                Err(e) => Err(e),
                Ok(r) => Ok(Normal::List(r)),
            },
        },
{
    law_native_call(Native::Rest, seq![l], fuel);
}

/// The call that inserts into a dictionary value forces the dictionary and
/// the key, and gives the dictionary with the value under the key.
pub proof fn law_insert_call(d: Value, k: Value, v: Value, fuel: nat)
    ensures
        force(insert_call(d, k, v), fuel + 1) == match force_dictionary(d, fuel) {
            Err(e) => Err::<Normal, Error>(e),
            Ok(dict) => match purify(k, fuel) {
                Err(e) => Err(e),
                Ok(key) => Ok(Normal::Dictionary(with(dict, key, v))),
            },
        },
{
    law_native_call(Native::Insert, seq![d, k, v], fuel);
}

/// The call that merges two values forces the first. A list is followed by
/// the elements of the second value; a dictionary is laid under the second
/// value, which is forced to a dictionary; anything else cannot be merged.
pub proof fn law_merge_call(a: Value, b: Value, fuel: nat)
    ensures
        force(merge_call(a, b), fuel + 1) == match force(a, fuel) {
            Err(e) => Err::<Normal, Error>(e),
            Ok(Normal::List(l)) => match concat(l, b, fuel) {
                Err(e) => Err(e),
                Ok(r) => Ok(Normal::List(r)),
            },
            Ok(Normal::Dictionary(d)) => match force_dictionary(b, fuel) {
                Err(e) => Err(e),
                Ok(o) => Ok(Normal::Dictionary(merged(d, o))),
            },
            Ok(_) => Err(Error::Value(crate::runtime::error::ValueError::NotCollection)),
        },
{
    law_native_call(Native::Merge, seq![a, b], fuel);
}

/// The call for the list value `l` without its first `k` elements.
pub open spec fn rest_calls(l: Value, k: nat) -> Value
    decreases k,
{
    if k == 0 {
        l
    } else {
        rest_call(rest_calls(l, (k - 1) as nat))
    }
}

/// The bundle of a call with the one spread argument `l`: nothing inline,
/// and `l` itself as the overflow list.
pub proof fn law_spread_is_the_overflow_list(l: Value)
    ensures
        new_arguments(
            seq![PositionalArgument { value: l, expanded: true }],
            Seq::empty(),
            Seq::empty(),
        ) == (ArgumentsView {
            positionals: Seq::empty(),
            expanded_list: Some(l),
            keywords: Seq::empty(),
            expanded_dict: None,
        }),
{
    let ps = seq![PositionalArgument { value: l, expanded: true }];
    assert(values(ps.take(0)) =~= Seq::<Value>::empty());
    assert(ps.skip(0) =~= ps);
    assert(Seq::<KeywordArgument>::empty().take(0) =~= Seq::<KeywordArgument>::empty());
}

proof fn lemma_bind_required_spread(n: nat, a: ArgumentsView, l: Value, k: nat)
    requires
        a.positionals.len() == 0,
        a.expanded_list == Some(rest_calls(l, k)),
    ensures
        bind_required(n, a) == Ok::<(Seq<Value>, ArgumentsView), Error>(
            (
                Seq::new(n, |i: int| first_call(rest_calls(l, (k + i) as nat))),
                ArgumentsView { expanded_list: Some(rest_calls(l, k + n)), ..a },
            ),
        ),
    decreases n,
{
    let want = Seq::new(n, |i: int| first_call(rest_calls(l, (k + i) as nat)));
    if n == 0 {
        assert(want =~= Seq::<Value>::empty());
    } else {
        let b = ArgumentsView { expanded_list: Some(rest_calls(l, k + 1)), ..a };
        lemma_bind_required_spread((n - 1) as nat, b, l, k + 1);
        let rest = Seq::new((n - 1) as nat, |i: int| first_call(rest_calls(l, (k + 1 + i) as nat)));
        assert(seq![first_call(rest_calls(l, k))] + rest =~= want);
    }
}

/// Taking the rest of a list of given values `k` times gives the list of
/// the values behind the first `k`.
pub proof fn law_rest_calls(ws: Seq<Value>, k: nat, fuel: nat)
    requires
        k <= ws.len(),
        fuel >= k,
    ensures
        force_list(rest_calls(normal(Normal::List(list_of(ws))), k), fuel) == Ok::<List, Error>(
            list_of(ws.skip(k as int)),
        ),
    decreases k,
{
    let l = normal(Normal::List(list_of(ws)));
    if k == 0 {
        assert(ws.skip(0) =~= ws);
    } else {
        let f = (fuel - 1) as nat;
        let inner = rest_calls(l, (k - 1) as nat);
        law_rest_calls(ws, (k - 1) as nat, f);
        law_rest_call(inner, f);
        let behind = ws.skip(k - 1);
        assert(behind.skip(1) =~= ws.skip(k as int));
        assert(list_of(behind) == cons(behind[0], normal(Normal::List(list_of(behind.skip(1))))));
    }
}

/// Binding a signature of required positional parameters only against one
/// spread list of given values: where the list has more values than the
/// signature has parameters, the binding fails and names how many are left.
/// Where it has as many, each parameter is bound to the call for its
/// element.
pub proof fn law_bind_counts_a_spread_surplus(s: SignatureView, ws: Seq<Value>, fuel: nat)
    requires
        s.positionals.len() <= ws.len(),
        fuel >= ws.len() + s.positionals.len(),
        s.optionals.len() == 0,
        s.rest.len() == 0,
        s.keywords.len() == 0,
        s.optional_keywords.len() == 0,
        s.rest_keywords.len() == 0,
    ensures
        bind(
            s,
            new_arguments(
                seq![
                    PositionalArgument { value: normal(Normal::List(list_of(ws))), expanded: true },
                ],
                Seq::empty(),
                Seq::empty(),
            ),
            fuel,
        ) == if ws.len() > s.positionals.len() {
            Err::<Seq<Value>, Error>(
                Error::Argument(
                    ArgumentError::PositionalsLeft(
                        saturating_sum(0, (ws.len() - s.positionals.len()) as nat),
                    ),
                ),
            )
        } else {
            Ok(
                Seq::new(
                    s.positionals.len(),
                    |i: int| first_call(rest_calls(normal(Normal::List(list_of(ws))), i as nat)),
                ),
            )
        },
{
    let l = normal(Normal::List(list_of(ws)));
    let r = s.positionals.len();
    law_spread_is_the_overflow_list(l);
    let a = new_arguments(
        seq![PositionalArgument { value: l, expanded: true }],
        Seq::empty(),
        Seq::empty(),
    );
    lemma_bind_required_spread(r, a, l, 0);
    let v1 = Seq::new(r, |i: int| first_call(rest_calls(l, (0 + i) as nat)));
    let want = Seq::new(r, |i: int| first_call(rest_calls(l, i as nat)));
    assert(v1 =~= want);
    let a1 = ArgumentsView { expanded_list: Some(rest_calls(l, r)), ..a };
    let empty = Seq::<Value>::empty();
    assert(bind_optionals(s.optionals, a1, v1) == (empty, a1));
    assert(v1 + empty =~= v1);
    assert(bind_positional_part(s, a) == Ok::<(Seq<Value>, ArgumentsView), Error>((v1, a1)));
    assert(bind_keywords(s.keywords, a1, fuel) == Ok::<(Seq<Value>, ArgumentsView), Error>(
        (empty, a1),
    ));
    assert(bind_optional_keywords(s.optional_keywords, a1, fuel, v1 + empty) == Ok::<
        (Seq<Value>, ArgumentsView),
        Error,
    >((empty, a1)));
    assert(empty + empty =~= empty);
    assert(bind_keyword_part(s, a1, fuel, v1) == Ok::<(Seq<Value>, ArgumentsView), Error>(
        (empty, a1),
    ));
    law_rest_calls(ws, r, fuel);
    law_elements_of_a_list(ws.skip(r as int), fuel);
    assert(positionals_left(a1, fuel) == Ok::<usize, Error>(
        saturating_sum(0, (ws.len() - r) as nat),
    ));
}

/// The entries that the keyword arguments `ks` make: each name as a key in
/// front of its value.
pub open spec fn keyword_entries(ks: Seq<KeywordArgument>) -> Seq<(Key, Value)> {
    Seq::new(ks.len(), |i: int| (Key::String(ks[i].name), ks[i].value))
}

/// The dictionary of keyword arguments is the empty dictionary with their
/// entries inserted in their order, so that of two arguments of one name the
/// later one stays.
pub proof fn law_keyword_dictionary(ks: Seq<KeywordArgument>)
    ensures
        keyword_dictionary(ks) == with_all(empty(), keyword_entries(ks)),
        well_formed(keyword_dictionary(ks)),
        keyword_dictionary(ks)@ == map_of(keyword_entries(ks)),
    decreases ks.len(),
{
    law_empty();
    lemma_with_all(empty(), keyword_entries(ks));
    assert(empty()@.union_prefer_right(map_of(keyword_entries(ks))) =~= map_of(
        keyword_entries(ks),
    ));
    if ks.len() > 0 {
        law_keyword_dictionary(ks.drop_last());
        assert(keyword_entries(ks).drop_last() =~= keyword_entries(ks.drop_last()));
    }
}

/// Inserting keyword arguments into a dictionary, by calls that run when
/// the result is forced, gives the dictionary with their entries inserted in
/// their order: an argument wins over an entry of its name, and a later
/// argument over an earlier one. One unit of fuel is needed for each
/// argument.
pub proof fn law_insert_all(d: Dictionary, ks: Seq<KeywordArgument>, fuel: nat)
    requires
        well_formed(d),
        fuel >= ks.len(),
    ensures
        force(insert_all(normal(Normal::Dictionary(d)), ks), fuel) == Ok::<Normal, Error>(
            Normal::Dictionary(with_all(d, keyword_entries(ks))),
        ),
        with_all(d, keyword_entries(ks))@ == d@.union_prefer_right(map_of(keyword_entries(ks))),
    decreases ks.len(),
{
    lemma_with_all(d, keyword_entries(ks));
    if ks.len() > 0 {
        let f = (fuel - 1) as nat;
        let init = ks.drop_last();
        law_insert_all(d, init, f);
        assert(keyword_entries(ks).drop_last() =~= keyword_entries(init));
        law_insert_call(
            insert_all(normal(Normal::Dictionary(d)), init),
            normal(Normal::String(ks.last().name)),
            ks.last().value,
            f,
        );
    }
}

/// Taking all remaining keyword arguments of a bundle whose overflow
/// dictionary is the dictionary `d`, or that has none where `d` is empty,
/// gives a value that forces to `d` with the inline arguments inserted in
/// their order.
pub proof fn law_rest_keywords(a: ArgumentsView, d: Dictionary, fuel: nat)
    requires
        well_formed(d),
        a.expanded_dict == Some(normal(Normal::Dictionary(d))) || (a.expanded_dict is None && d
            == empty()),
        fuel >= a.keywords.len(),
    ensures
        force(rest_keywords(a).0, fuel) == Ok::<Normal, Error>(
            Normal::Dictionary(with_all(d, keyword_entries(a.keywords))),
        ),
        with_all(d, keyword_entries(a.keywords))@ == d@.union_prefer_right(
            map_of(keyword_entries(a.keywords)),
        ),
{
    law_insert_all(d, a.keywords, fuel);
}

/// `d` merged with each of the dictionaries `ds` in turn.
pub open spec fn merged_all(d: Dictionary, ds: Seq<Dictionary>) -> Dictionary
    decreases ds.len(),
{
    if ds.len() == 0 {
        d
    } else {
        merged(merged_all(d, ds.drop_last()), ds.last())
    }
}

/// The values of the dictionaries `ds`.
pub open spec fn dictionary_values(ds: Seq<Dictionary>) -> Seq<Value> {
    Seq::new(ds.len(), |i: int| normal(Normal::Dictionary(ds[i])))
}

/// Merging spread dictionaries into a dictionary, by calls that run when
/// the result is forced, gives the dictionary merged with each of them in
/// their order, so that a later one wins. One unit of fuel is needed for each
/// of them.
pub proof fn law_merge_all(d: Dictionary, ds: Seq<Dictionary>, fuel: nat)
    requires
        well_formed(d),
        forall|i: int| 0 <= i < ds.len() ==> well_formed(#[trigger] ds[i]),
        fuel >= ds.len(),
    ensures
        force(merge_all(normal(Normal::Dictionary(d)), dictionary_values(ds)), fuel) == Ok::<
            Normal,
            Error,
        >(Normal::Dictionary(merged_all(d, ds))),
        well_formed(merged_all(d, ds)),
        ds.len() > 0 ==> merged_all(d, ds)@ == merged_all(d, ds.drop_last())@.union_prefer_right(
            ds.last()@,
        ),
    decreases ds.len(),
{
    if ds.len() > 0 {
        let f = (fuel - 1) as nat;
        let init = ds.drop_last();
        assert forall|i: int| 0 <= i < init.len() implies well_formed(#[trigger] init[i]) by {
            assert(init[i] == ds[i]);
        }
        law_merge_all(d, init, f);
        lemma_merged(merged_all(d, init), ds.last());
        assert(dictionary_values(ds).drop_last() =~= dictionary_values(init));
        assert(dictionary_values(ds).last() == normal(Normal::Dictionary(ds.last())));
        law_merge_call(
            merge_all(normal(Normal::Dictionary(d)), dictionary_values(init)),
            normal(Normal::Dictionary(ds.last())),
            f,
        );
    }
}

/// The keyword arguments of `ks` that find no room inline.
pub open spec fn overflow_keywords(ks: Seq<KeywordArgument>) -> Seq<KeywordArgument> {
    if ks.len() > 4 {
        ks.skip(4)
    } else {
        Seq::empty()
    }
}

/// The overflow dictionary of a call with keyword arguments and spread
/// dictionaries forces to the dictionary of the keyword arguments that found
/// no room inline, merged with each spread dictionary in turn. A call with
/// no more than four keyword arguments and no spread dictionary has no
/// overflow dictionary.
pub proof fn law_new_keywords(
    ps: Seq<PositionalArgument>,
    ks: Seq<KeywordArgument>,
    ds: Seq<Dictionary>,
    fuel: nat,
)
    requires
        forall|i: int| 0 <= i < ds.len() ==> well_formed(#[trigger] ds[i]),
        fuel >= ds.len(),
    ensures
        new_arguments(ps, ks, dictionary_values(ds)).keywords == if ks.len() > 4 {
            ks.take(4)
        } else {
            ks
        },
        ks.len() <= 4 && ds.len() == 0 ==> new_arguments(
            ps,
            ks,
            dictionary_values(ds),
        ).expanded_dict is None,
        ks.len() > 4 || ds.len() > 0 ==> new_arguments(
            ps,
            ks,
            dictionary_values(ds),
        ).expanded_dict is Some && force(
            new_arguments(ps, ks, dictionary_values(ds)).expanded_dict->0,
            fuel,
        ) == Ok::<Normal, Error>(
            Normal::Dictionary(merged_all(keyword_dictionary(overflow_keywords(ks)), ds)),
        ),
{
    law_keyword_dictionary(overflow_keywords(ks));
    law_merge_all(keyword_dictionary(overflow_keywords(ks)), ds, fuel);
    assert(ks.take(ks.len() as int) =~= ks);
    if ks.len() <= 4 {
        assert(keyword_dictionary(overflow_keywords(ks)) == empty());
    }
    if ds.len() == 0 {
        assert(dictionary_values(ds) =~= Seq::<Value>::empty());
    }
}

} // verus!
