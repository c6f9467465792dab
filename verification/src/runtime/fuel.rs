//! What fuel does: an outcome that is reached with some fuel is reached with
//! any greater fuel. Only the failure that says that the fuel ran out can
//! change when more is given.

use vstd::prelude::*;
use crate::runtime::dictionary::Dictionary;
use crate::runtime::error::{ArgumentError, Error};
use crate::runtime::key::Key;
use crate::runtime::list::first;
use crate::runtime::semantics::{
    apply, bind, bind_keyword_part, bind_keywords, bind_optional_keywords,
    bind_positional_part, check_empty, keywords_left, positionals_left, choose_branch, concat, elements, equal, equal_entries, equal_lists,
    equal_normal, force, force_boolean, force_dictionary, force_list, instantiate,
    native_signature, purify,
    render, render_all, render_entries, render_normal, rest, run_native, search_keyword,
};
use crate::runtime::signature::{OptionalView, SignatureView};
use crate::runtime::value::{ArgumentsView, Function, List, Native, Normal, Value};

verus! {

/// Whether an outcome is final: it is a result, or a failure other than the
/// one that only says that the fuel ran out.
pub open spec fn settled<T>(r: Result<T, Error>) -> bool {
    r != Err::<T, Error>(Error::CyclicForce)
}

/// The function of a call that has not run.
pub open spec fn function_of(v: Value) -> Value {
    v->Thunk_0.function
}

/// The arguments of a call that has not run.
pub open spec fn arguments_of(v: Value) -> ArgumentsView {
    v->Thunk_0.arguments@
}

/// The parameters of a function that was defined.
pub open spec fn signature_of(f: Function) -> SignatureView {
    f->Closure_0.signature@
}

/// The first element of a list that is not empty.
pub open spec fn head_of(l: List) -> Value {
    l->Cons_0.head
}

/// The tail of a list that is not empty.
pub open spec fn tail_of(l: List) -> Value {
    l->Cons_0.tail
}

/// An outcome of forcing that is final stays the same with more fuel.
pub proof fn law_force_settles(v: Value, fuel: nat)
    requires
        settled(force(v, fuel)),
    ensures
        force(v, fuel + 1) == force(v, fuel),
    decreases fuel, 0nat, 0nat,
{
    if v is Thunk && fuel > 0 {
        let f = (fuel - 1) as nat;
        let function = force(function_of(v), f);
        if settled(function) {
            law_force_settles(function_of(v), f);
            if let Ok(Normal::Function(g)) = function {
                let applied = apply(g, arguments_of(v), f);
                if settled(applied) {
                    lemma_apply(g, arguments_of(v), f);
                    if let Ok(r) = applied {
                        law_force_settles(r, f);
                    }
                }
            }
        }
    }
}

/// An outcome of forcing that is final is the outcome at any greater fuel.
pub proof fn law_force_is_monotonic(v: Value, fuel: nat, more: nat)
    requires
        settled(force(v, fuel)),
        fuel <= more,
    ensures
        force(v, more) == force(v, fuel),
    decreases more - fuel,
{
    if fuel < more {
        law_force_is_monotonic(v, fuel, (more - 1) as nat);
        law_force_settles(v, (more - 1) as nat);
    }
}

proof fn lemma_force_list(v: Value, fuel: nat)
    requires
        settled(force_list(v, fuel)),
    ensures
        force_list(v, fuel + 1) == force_list(v, fuel),
    decreases fuel, 1nat, 0nat,
{
    law_force_settles(v, fuel);
}

proof fn lemma_force_dictionary(v: Value, fuel: nat)
    requires
        settled(force_dictionary(v, fuel)),
    ensures
        force_dictionary(v, fuel + 1) == force_dictionary(v, fuel),
    decreases fuel, 1nat, 0nat,
{
    law_force_settles(v, fuel);
}

proof fn lemma_force_boolean(v: Value, fuel: nat)
    requires
        settled(force_boolean(v, fuel)),
    ensures
        force_boolean(v, fuel + 1) == force_boolean(v, fuel),
    decreases fuel, 1nat, 0nat,
{
    law_force_settles(v, fuel);
}

proof fn lemma_purify(v: Value, fuel: nat)
    requires
        settled(purify(v, fuel)),
    ensures
        purify(v, fuel + 1) == purify(v, fuel),
    decreases fuel, 1nat, 0nat,
{
    law_force_settles(v, fuel);
}

proof fn lemma_rest(l: List, fuel: nat)
    requires
        settled(rest(l, fuel)),
    ensures
        rest(l, fuel + 1) == rest(l, fuel),
    decreases fuel, 2nat, 0nat,
{
    if l is Cons {
        lemma_force_list(tail_of(l), fuel);
    }
}

proof fn lemma_elements(l: List, fuel: nat)
    requires
        settled(elements(l, fuel)),
    ensures
        elements(l, fuel + 1) == elements(l, fuel),
    decreases fuel, 3nat, 0nat,
{
    if l is Cons && fuel > 0 {
        let f = (fuel - 1) as nat;
        let tail = force_list(tail_of(l), f);
        if settled(tail) {
            lemma_force_list(tail_of(l), f);
            if let Ok(t) = tail {
                if settled(elements(t, f)) {
                    lemma_elements(t, f);
                }
            }
        }
    }
}

proof fn lemma_concat(l: List, other: Value, fuel: nat)
    requires
        settled(concat(l, other, fuel)),
    ensures
        concat(l, other, fuel + 1) == concat(l, other, fuel),
    decreases fuel, 4nat, 0nat,
{
    if settled(elements(l, fuel)) {
        lemma_elements(l, fuel);
        if let Ok(es) = elements(l, fuel) {
            if es.len() == 0 {
                lemma_force_list(other, fuel);
            }
        }
    }
}

proof fn lemma_choose_branch(l: List, fuel: nat)
    requires
        settled(choose_branch(l, fuel)),
    ensures
        choose_branch(l, fuel + 1) == choose_branch(l, fuel),
    decreases fuel, 3nat, 0nat,
{
    if settled(rest(l, fuel)) {
        lemma_rest(l, fuel);
        if let Ok(r) = rest(l, fuel) {
            if !(r is Empty) {
                if let Ok(c) = first(l) {
                    if settled(force_boolean(c, fuel)) {
                        lemma_force_boolean(c, fuel);
                        if force_boolean(c, fuel) == Ok::<bool, Error>(false) {
                            if settled(rest(r, fuel)) {
                                lemma_rest(r, fuel);
                                if let Ok(next) = rest(r, fuel) {
                                    if fuel > 0 {
                                        lemma_choose_branch(next, (fuel - 1) as nat);
                                    }
                                }
                            }
                        }
                    }
                }
            }
        }
    }
}

proof fn lemma_search_keyword(a: ArgumentsView, name: Seq<char>, fuel: nat)
    requires
        settled(search_keyword(a, name, fuel)),
    ensures
        search_keyword(a, name, fuel + 1) == search_keyword(a, name, fuel),
    decreases fuel, 2nat, 0nat,
{
    if let Some(v) = a.expanded_dict {
        if settled(force_dictionary(v, fuel)) {
            lemma_force_dictionary(v, fuel);
        }
    }
}

proof fn lemma_positionals_left(a: ArgumentsView, fuel: nat)
    requires
        settled(positionals_left(a, fuel)),
    ensures
        positionals_left(a, fuel + 1) == positionals_left(a, fuel),
    decreases fuel, 4nat, 0nat,
{
    if let Some(l) = a.expanded_list {
        if settled(force_list(l, fuel)) {
            lemma_force_list(l, fuel);
            if let Ok(list) = force_list(l, fuel) {
                if settled(elements(list, fuel)) {
                    lemma_elements(list, fuel);
                }
            }
        }
    }
}

proof fn lemma_keywords_left(a: ArgumentsView, fuel: nat)
    requires
        settled(keywords_left(a, fuel)),
    ensures
        keywords_left(a, fuel + 1) == keywords_left(a, fuel),
    decreases fuel, 4nat, 0nat,
{
    if let Some(v) = a.expanded_dict {
        if settled(force_dictionary(v, fuel)) {
            lemma_force_dictionary(v, fuel);
        }
    }
}

proof fn lemma_check_empty(a: ArgumentsView, fuel: nat)
    requires
        settled(check_empty(a, fuel)),
    ensures
        check_empty(a, fuel + 1) == check_empty(a, fuel),
    decreases fuel, 5nat, 0nat,
{
    if settled(positionals_left(a, fuel)) {
        lemma_positionals_left(a, fuel);
        if positionals_left(a, fuel) == Ok::<usize, Error>(0) {
            if settled(keywords_left(a, fuel)) {
                lemma_keywords_left(a, fuel);
            }
        }
    }
}

proof fn lemma_bind_keywords(names: Seq<Seq<char>>, a: ArgumentsView, fuel: nat)
    requires
        settled(bind_keywords(names, a, fuel)),
    ensures
        bind_keywords(names, a, fuel + 1) == bind_keywords(names, a, fuel),
    decreases fuel, 3nat, names.len(),
{
    if names.len() > 0 {
        let found = search_keyword(a, names[0], fuel);
        if settled(found) {
            lemma_search_keyword(a, names[0], fuel);
            if let Ok((v, b)) = found {
                if settled(bind_keywords(names.skip(1), b, fuel)) {
                    lemma_bind_keywords(names.skip(1), b, fuel);
                }
            }
        }
    }
}

proof fn lemma_bind_optional_keywords(
    os: Seq<OptionalView>,
    a: ArgumentsView,
    fuel: nat,
    before: Seq<Value>,
)
    requires
        settled(bind_optional_keywords(os, a, fuel, before)),
    ensures
        bind_optional_keywords(os, a, fuel + 1, before) == bind_optional_keywords(
            os,
            a,
            fuel,
            before,
        ),
    decreases fuel, 3nat, os.len(),
{
    if os.len() > 0 {
        let found = search_keyword(a, os[0].name, fuel);
        if settled(found) {
            lemma_search_keyword(a, os[0].name, fuel);
            match found {
                Ok((v, b)) => {
                    if settled(bind_optional_keywords(os.skip(1), b, fuel, before.push(v))) {
                        lemma_bind_optional_keywords(os.skip(1), b, fuel, before.push(v));
                    }
                },
                Err(e) => {
                    if e == Error::Argument(ArgumentError::MissingKeyword) {
                        let v = instantiate(os[0].default, before);
                        if settled(bind_optional_keywords(os.skip(1), a, fuel, before.push(v))) {
                            lemma_bind_optional_keywords(os.skip(1), a, fuel, before.push(v));
                        }
                    }
                },
            }
        }
    }
}

proof fn lemma_bind_keyword_part(s: SignatureView, a: ArgumentsView, fuel: nat, before: Seq<Value>)
    requires
        settled(bind_keyword_part(s, a, fuel, before)),
    ensures
        bind_keyword_part(s, a, fuel + 1, before) == bind_keyword_part(s, a, fuel, before),
    decreases fuel, 4nat, 0nat,
{
    let k = bind_keywords(s.keywords, a, fuel);
    if settled(k) {
        lemma_bind_keywords(s.keywords, a, fuel);
        if let Ok((v4, a4)) = k {
            if settled(bind_optional_keywords(s.optional_keywords, a4, fuel, before + v4)) {
                lemma_bind_optional_keywords(s.optional_keywords, a4, fuel, before + v4);
            }
        }
    }
}

proof fn lemma_bind(s: SignatureView, a: ArgumentsView, fuel: nat)
    requires
        settled(bind(s, a, fuel)),
    ensures
        bind(s, a, fuel + 1) == bind(s, a, fuel),
    decreases fuel, 6nat, 0nat,
{
    if let Ok((ps, b)) = bind_positional_part(s, a) {
        let k = bind_keyword_part(s, b, fuel, ps);
        if settled(k) {
            lemma_bind_keyword_part(s, b, fuel, ps);
            if let Ok((ks, c)) = k {
                if settled(check_empty(c, fuel)) {
                    lemma_check_empty(c, fuel);
                }
            }
        }
    }
}

proof fn lemma_run_native(n: Native, vs: Seq<Value>, fuel: nat)
    requires
        settled(run_native(n, vs, fuel)),
    ensures
        run_native(n, vs, fuel + 1) == run_native(n, vs, fuel),
    decreases fuel, 5nat, 0nat,
{
    match n {
        Native::List => {},
        Native::If => {
            if settled(force_list(vs[0], fuel)) {
                lemma_force_list(vs[0], fuel);
                if let Ok(l) = force_list(vs[0], fuel) {
                    lemma_choose_branch(l, fuel);
                }
            }
        },
        Native::First => {
            if settled(force_list(vs[0], fuel)) {
                lemma_force_list(vs[0], fuel);
            }
        },
        Native::Rest => {
            if settled(force_list(vs[0], fuel)) {
                lemma_force_list(vs[0], fuel);
                if let Ok(l) = force_list(vs[0], fuel) {
                    if settled(rest(l, fuel)) {
                        lemma_rest(l, fuel);
                    }
                }
            }
        },
        Native::Merge => {
            if settled(force(vs[0], fuel)) {
                law_force_settles(vs[0], fuel);
                match force(vs[0], fuel) {
                    Ok(Normal::List(l)) => {
                        if settled(concat(l, vs[1], fuel)) {
                            lemma_concat(l, vs[1], fuel);
                        }
                    },
                    Ok(Normal::Dictionary(d)) => {
                        if settled(force_dictionary(vs[1], fuel)) {
                            lemma_force_dictionary(vs[1], fuel);
                        }
                    },
                    _ => {},
                }
            }
        },
        Native::Insert => {
            if settled(force_dictionary(vs[0], fuel)) {
                lemma_force_dictionary(vs[0], fuel);
                if force_dictionary(vs[0], fuel) is Ok {
                    if settled(purify(vs[1], fuel)) {
                        lemma_purify(vs[1], fuel);
                    }
                }
            }
        },
    }
}

proof fn lemma_apply(f: Function, a: ArgumentsView, fuel: nat)
    requires
        settled(apply(f, a, fuel)),
    ensures
        apply(f, a, fuel + 1) == apply(f, a, fuel),
    decreases fuel, 7nat, 0nat,
{
    match f {
        Function::Native(n) => {
            let bound = bind(native_signature(n), a, fuel);
            if settled(bound) {
                lemma_bind(native_signature(n), a, fuel);
                if let Ok(vs) = bound {
                    lemma_run_native(n, vs, fuel);
                }
            }
        },
        Function::Closure(_) => {
            let s = signature_of(f);
            if settled(bind(s, a, fuel)) {
                lemma_bind(s, a, fuel);
            }
        },
    }
}

/// An outcome of a comparison that is final stays the same with more fuel.
pub proof fn law_equal_settles(a: Value, b: Value, fuel: nat)
    requires
        settled(equal(a, b, fuel)),
    ensures
        equal(a, b, fuel + 1) == equal(a, b, fuel),
    decreases fuel, 9nat, 0nat,
{
    if settled(force(a, fuel)) {
        law_force_settles(a, fuel);
        if let Ok(x) = force(a, fuel) {
            if settled(force(b, fuel)) {
                law_force_settles(b, fuel);
                if let Ok(y) = force(b, fuel) {
                    lemma_equal_normal(x, y, fuel);
                }
            }
        }
    }
}

proof fn lemma_equal_normal(x: Normal, y: Normal, fuel: nat)
    requires
        settled(equal_normal(x, y, fuel)),
    ensures
        equal_normal(x, y, fuel + 1) == equal_normal(x, y, fuel),
    decreases fuel, 8nat, 0nat,
{
    match x {
        Normal::List(l) => {
            if let Normal::List(m) = y {
                lemma_equal_lists(l, m, fuel);
            }
        },
        Normal::Dictionary(d) => {
            if let Normal::Dictionary(e) = y {
                if crate::runtime::dictionary::size(d) == crate::runtime::dictionary::size(e) {
                    lemma_equal_entries(crate::runtime::dictionary::entries(d), e, fuel);
                }
            }
        },
        _ => {},
    }
}

proof fn lemma_equal_lists(l: List, m: List, fuel: nat)
    requires
        settled(equal_lists(l, m, fuel)),
    ensures
        equal_lists(l, m, fuel + 1) == equal_lists(l, m, fuel),
    decreases fuel, 7nat, 0nat,
{
    if l is Cons && m is Cons && fuel > 0 {
        let f = (fuel - 1) as nat;
        let heads = equal(head_of(l), head_of(m), f);
        if settled(heads) {
            law_equal_settles(head_of(l), head_of(m), f);
            if heads == Ok::<bool, Error>(true) {
                let t = force_list(tail_of(l), f);
                if settled(t) {
                    lemma_force_list(tail_of(l), f);
                    if let Ok(tl) = t {
                        let u = force_list(tail_of(m), f);
                        if settled(u) {
                            lemma_force_list(tail_of(m), f);
                            if let Ok(ul) = u {
                                lemma_equal_lists(tl, ul, f);
                            }
                        }
                    }
                }
            }
        }
    }
}

proof fn lemma_equal_entries(es: Seq<(Key, Value)>, other: Dictionary, fuel: nat)
    requires
        settled(equal_entries(es, other, fuel)),
    ensures
        equal_entries(es, other, fuel + 1) == equal_entries(es, other, fuel),
    decreases fuel, 6nat, es.len(),
{
    if es.len() > 0 {
        let before = equal_entries(es.drop_last(), other, fuel);
        if settled(before) {
            lemma_equal_entries(es.drop_last(), other, fuel);
            if before == Ok::<bool, Error>(true) && other@.contains_key(es.last().0@) && fuel > 0 {
                law_equal_settles(es.last().1, other@[es.last().0@], (fuel - 1) as nat);
            }
        }
    }
}

/// A text, or a failure to make one, that is final stays the same with more
/// fuel.
pub proof fn law_render_settles(v: Value, fuel: nat)
    requires
        settled(render(v, fuel)),
    ensures
        render(v, fuel + 1) == render(v, fuel),
    decreases fuel, 9nat, 0nat,
{
    if settled(force(v, fuel)) {
        law_force_settles(v, fuel);
        if let Ok(n) = force(v, fuel) {
            lemma_render_normal(n, fuel);
        }
    }
}

proof fn lemma_render_normal(n: Normal, fuel: nat)
    requires
        settled(render_normal(n, fuel)),
    ensures
        render_normal(n, fuel + 1) == render_normal(n, fuel),
    decreases fuel, 8nat, 0nat,
{
    match n {
        Normal::List(l) => {
            if settled(elements(l, fuel)) {
                lemma_elements(l, fuel);
                if let Ok(es) = elements(l, fuel) {
                    if settled(render_all(es, fuel)) {
                        lemma_render_all(es, fuel);
                    }
                }
            }
        },
        Normal::Dictionary(d) => {
            let es = crate::runtime::dictionary::entries(d);
            if settled(render_entries(es, fuel)) {
                lemma_render_entries(es, fuel);
            }
        },
        _ => {},
    }
}

proof fn lemma_render_all(vs: Seq<Value>, fuel: nat)
    requires
        settled(render_all(vs, fuel)),
    ensures
        render_all(vs, fuel + 1) == render_all(vs, fuel),
    decreases fuel, 7nat, vs.len(),
{
    if vs.len() > 0 {
        let before = render_all(vs.drop_last(), fuel);
        if settled(before) {
            lemma_render_all(vs.drop_last(), fuel);
            if before is Ok && fuel > 0 {
                if settled(render(vs.last(), (fuel - 1) as nat)) {
                    law_render_settles(vs.last(), (fuel - 1) as nat);
                }
            }
        }
    }
}

proof fn lemma_render_entries(es: Seq<(Key, Value)>, fuel: nat)
    requires
        settled(render_entries(es, fuel)),
    ensures
        render_entries(es, fuel + 1) == render_entries(es, fuel),
    decreases fuel, 7nat, es.len(),
{
    if es.len() > 0 {
        let before = render_entries(es.drop_last(), fuel);
        if settled(before) {
            lemma_render_entries(es.drop_last(), fuel);
            if before is Ok && fuel > 0 {
                if settled(render(es.last().1, (fuel - 1) as nat)) {
                    law_render_settles(es.last().1, (fuel - 1) as nat);
                }
            }
        }
    }
}

} // verus!
