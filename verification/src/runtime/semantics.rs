//! What evaluation means.
//!
//! Every function here that forces a value takes fuel, a bound on the
//! nesting of the steps it may take. A normal form needs none. Running out
//! of fuel is the failure `CyclicForce`.

use vstd::prelude::*;
use crate::runtime::dictionary::{entries, merged, size, with, without, Dictionary};
use crate::runtime::error::{ArgumentError, Error, ValueError};
use crate::runtime::key::{key_of, Key, KeyView};
use crate::runtime::list::{first, list_of, prepend};
use crate::runtime::number::ieee_equal;
use crate::runtime::signature::{OptionalView, SignatureView};
use crate::runtime::arguments::new_arguments;
use crate::runtime::value::{
    call, cons, native, normal, same_function, thunk, ArgumentsView, Expr, Function,
    KeywordArgument, List, Native, Normal, PositionalArgument, Value,
};

verus! {

/// The call that yields the first element of the list value `l`.
pub open spec fn first_call(l: Value) -> Value {
    call(native(Native::First), seq![l])
}

/// The call that yields the list value `l` without its first element.
pub open spec fn rest_call(l: Value) -> Value {
    call(native(Native::Rest), seq![l])
}

/// The call that yields the dictionary value `d` with `v` under `k`.
pub open spec fn insert_call(d: Value, k: Value, v: Value) -> Value {
    call(native(Native::Insert), seq![d, k, v])
}

/// Taking the next positional argument: the front of the inline values, or,
/// when those are used up, a call for the first element of the overflow
/// list, which is left as a call for its rest. Nothing is forced.
pub open spec fn next_positional(a: ArgumentsView) -> (Option<Value>, ArgumentsView) {
    if a.positionals.len() > 0 {
        (Some(a.positionals[0]), ArgumentsView { positionals: a.positionals.skip(1), ..a })
    } else {
        match a.expanded_list {
            Some(l) => (
                Some(first_call(l)),
                ArgumentsView { expanded_list: Some(rest_call(l)), ..a },
            ),
            None => (None, a),
        }
    }
}

/// Taking all remaining positional arguments as one list value: the inline
/// values in front of the overflow list, or a list of their own.
pub open spec fn rest_positionals(a: ArgumentsView) -> (Value, ArgumentsView) {
    (
        match a.expanded_list {
            None => normal(Normal::List(list_of(a.positionals))),
            Some(l) => prepend(a.positionals, l),
        },
        ArgumentsView { positionals: Seq::empty(), expanded_list: None, ..a },
    )
}

/// How many keyword arguments stand in front of the first one named `name`;
/// all of them if none has the name.
pub open spec fn position(ks: Seq<KeywordArgument>, name: Seq<char>) -> int
    decreases ks.len(),
{
    if ks.len() == 0 {
        0
    } else if ks[0].name@ == name {
        0
    } else {
        1 + position(ks.skip(1), name)
    }
}

/// `v` with each keyword argument of `ks` inserted, unforced, in turn.
pub open spec fn insert_all(v: Value, ks: Seq<KeywordArgument>) -> Value
    decreases ks.len(),
{
    if ks.len() == 0 {
        v
    } else {
        insert_call(
            insert_all(v, ks.drop_last()),
            normal(Normal::String(ks.last().name)),
            ks.last().value,
        )
    }
}

/// Taking all remaining keyword arguments as one dictionary value: the
/// inline arguments inserted into the overflow dictionary, or into an empty
/// one.
pub open spec fn rest_keywords(a: ArgumentsView) -> (Value, ArgumentsView) {
    (
        insert_all(
            match a.expanded_dict {
                Some(d) => d,
                None => normal(Normal::Dictionary(crate::runtime::dictionary::empty())),
            },
            a.keywords,
        ),
        ArgumentsView { keywords: Seq::empty(), expanded_dict: None, ..a },
    )
}

/// The sum of two counts, held at the largest `usize`.
pub open spec fn saturating_sum(a: nat, b: nat) -> usize {
    if a + b <= usize::MAX {
        (a + b) as usize
    } else {
        usize::MAX
    }
}

/// The parameters of a native function.
pub open spec fn native_signature(n: Native) -> SignatureView {
    let none = Seq::<char>::empty();
    let rest_only = |rest: Seq<char>|
        SignatureView {
            positionals: Seq::empty(),
            optionals: Seq::empty(),
            rest,
            keywords: Seq::empty(),
            optional_keywords: Seq::empty(),
            rest_keywords: none,
        };
    let required = |names: Seq<Seq<char>>|
        SignatureView {
            positionals: names,
            optionals: Seq::empty(),
            rest: none,
            keywords: Seq::empty(),
            optional_keywords: Seq::empty(),
            rest_keywords: none,
        };
    match n {
        Native::List => rest_only("elements"@),
        Native::If => rest_only("conds"@),
        Native::First => required(seq!["list"@]),
        Native::Rest => required(seq!["list"@]),
        Native::Merge => required(seq!["first"@, "second"@]),
        Native::Insert => required(seq!["collection"@, "key"@, "value"@]),
    }
}

/// The value of the expression `e` where the parameters are bound to the
/// values `vs`. A constant is its value, a parameter the value at its place,
/// or nil where no value stands at that place, and a call is the call of
/// the value of its function on the values of its arguments, not yet run.
pub open spec fn instantiate(e: Expr, vs: Seq<Value>) -> Value
    decreases e, 1nat,
{
    match e {
        Expr::Constant(v) => v,
        Expr::Parameter(i) => if i < vs.len() {
            vs[i as int]
        } else {
            normal(Normal::Nil)
        },
        Expr::Call(c) => thunk(
            instantiate(c.function, vs),
            new_arguments(
                instantiate_positionals(e, vs),
                instantiate_keywords(e, vs),
                instantiate_dictionaries(e, vs),
            ),
        ),
    }
}

/// The positional arguments of the call `e` where the parameters are bound
/// to the values `vs`.
pub open spec fn instantiate_positionals(e: Expr, vs: Seq<Value>) -> Seq<PositionalArgument>
    decreases e, 0nat,
{
    match e {
        Expr::Call(c) => Seq::new(
            c.positionals@.len(),
            |i: int|
                if 0 <= i < c.positionals@.len() {
                    PositionalArgument {
                        value: instantiate(c.positionals@[i].value, vs),
                        expanded: c.positionals@[i].expanded,
                    }
                } else {
                    arbitrary()
                },
        ),
        _ => Seq::empty(),
    }
}

/// The keyword arguments of the call `e` where the parameters are bound to
/// the values `vs`.
pub open spec fn instantiate_keywords(e: Expr, vs: Seq<Value>) -> Seq<KeywordArgument>
    decreases e, 0nat,
{
    match e {
        Expr::Call(c) => Seq::new(
            c.keywords@.len(),
            |i: int|
                if 0 <= i < c.keywords@.len() {
                    KeywordArgument {
                        name: c.keywords@[i].name,
                        value: instantiate(c.keywords@[i].value, vs),
                    }
                } else {
                    arbitrary()
                },
        ),
        _ => Seq::empty(),
    }
}

/// The spread dictionaries of the call `e` where the parameters are bound
/// to the values `vs`.
pub open spec fn instantiate_dictionaries(e: Expr, vs: Seq<Value>) -> Seq<Value>
    decreases e, 0nat,
{
    match e {
        Expr::Call(c) => Seq::new(
            c.dictionaries@.len(),
            |i: int|
                if 0 <= i < c.dictionaries@.len() {
                    instantiate(c.dictionaries@[i], vs)
                } else {
                    arbitrary()
                },
        ),
        _ => Seq::empty(),
    }
}

/// The normal form of `v`, reached within `fuel` nested steps, or the error
/// that stopped the evaluation. A normal form is its own result at any
/// fuel. A call forces its function, binds its arguments, runs the function
/// and forces what that returned; out of fuel it fails with `CyclicForce`.
pub open spec fn force(v: Value, fuel: nat) -> Result<Normal, Error>
    decreases fuel, 0nat, 0nat,
{
    match v {
        Value::Normal(n) => Ok(n),
        Value::Thunk(t) => if fuel == 0 {
            Err(Error::CyclicForce)
        } else {
            match force(t.function, (fuel - 1) as nat) {
                Err(e) => Err(e),
                Ok(Normal::Function(f)) => match apply(f, t.arguments@, (fuel - 1) as nat) {
                    Err(e) => Err(e),
                    Ok(r) => force(r, (fuel - 1) as nat),
                },
                Ok(_) => Err(Error::Value(ValueError::NotFunction)),
            }
        },
    }
}

/// The list that `v` forces to.
pub open spec fn force_list(v: Value, fuel: nat) -> Result<List, Error>
    decreases fuel, 1nat, 0nat,
{
    match force(v, fuel) {
        Err(e) => Err(e),
        Ok(Normal::List(l)) => Ok(l),
        Ok(_) => Err(Error::Value(ValueError::NotList)),
    }
}

/// The dictionary that `v` forces to.
pub open spec fn force_dictionary(v: Value, fuel: nat) -> Result<Dictionary, Error>
    decreases fuel, 1nat, 0nat,
{
    match force(v, fuel) {
        Err(e) => Err(e),
        Ok(Normal::Dictionary(d)) => Ok(d),
        Ok(_) => Err(Error::Value(ValueError::NotDictionary)),
    }
}

/// The boolean that `v` forces to.
pub open spec fn force_boolean(v: Value, fuel: nat) -> Result<bool, Error>
    decreases fuel, 1nat, 0nat,
{
    match force(v, fuel) {
        Err(e) => Err(e),
        Ok(Normal::Boolean(b)) => Ok(b),
        Ok(_) => Err(Error::Value(ValueError::NotBoolean)),
    }
}

/// The key that `v` forces to: nil, a number or a string.
pub open spec fn purify(v: Value, fuel: nat) -> Result<Key, Error>
    decreases fuel, 1nat, 0nat,
{
    match force(v, fuel) {
        Err(e) => Err(e),
        Ok(n) => match key_of(n) {
            Some(k) => Ok(k),
            None => Err(Error::Value(ValueError::NotKey)),
        },
    }
}

/// The list `l` without its first element.
pub open spec fn rest(l: List, fuel: nat) -> Result<List, Error>
    decreases fuel, 2nat, 0nat,
{
    match l {
        List::Empty => Err(Error::Value(ValueError::EmptyList)),
        List::Cons(c) => force_list(c.tail, fuel),
    }
}

/// The elements of `l` from first to last. Each cell that is walked takes
/// one unit of fuel.
pub open spec fn elements(l: List, fuel: nat) -> Result<Seq<Value>, Error>
    decreases fuel, 3nat, 0nat,
{
    match l {
        List::Empty => Ok(Seq::empty()),
        List::Cons(c) => if fuel == 0 {
            Err(Error::CyclicForce)
        } else {
            match force_list(c.tail, (fuel - 1) as nat) {
                Err(e) => Err(e),
                Ok(t) => match elements(t, (fuel - 1) as nat) {
                    Err(e) => Err(e),
                    Ok(es) => Ok(seq![c.head] + es),
                },
            }
        },
    }
}

/// The elements of `l` followed by those of the list value `other`. The
/// cells of `l` are built anew; `other` is the tail of the last of them as
/// it stands, and is forced only where `l` is empty.
pub open spec fn concat(l: List, other: Value, fuel: nat) -> Result<List, Error>
    decreases fuel, 4nat, 0nat,
{
    match elements(l, fuel) {
        Err(e) => Err(e),
        Ok(es) => if es.len() == 0 {
            force_list(other, fuel)
        } else {
            Ok(cons(es[0], prepend(es.skip(1), other)))
        },
    }
}

/// The choice that `If` makes of the list `l` of conditions and results: the
/// only element of a list of one, else the second element if the first
/// forces to true, else the choice of the list from the third element on.
pub open spec fn choose_branch(l: List, fuel: nat) -> Result<Value, Error>
    decreases fuel, 3nat, 0nat,
{
    match rest(l, fuel) {
        Err(e) => Err(e),
        Ok(r) => if r is Empty {
            first(l)
        } else {
            match first(l) {
                Err(e) => Err(e),
                Ok(c) => match force_boolean(c, fuel) {
                    Err(e) => Err(e),
                    Ok(true) => first(r),
                    Ok(false) => match rest(r, fuel) {
                        Err(e) => Err(e),
                        Ok(next) => if fuel == 0 {
                            Err(Error::CyclicForce)
                        } else {
                            choose_branch(next, (fuel - 1) as nat)
                        },
                    },
                },
            }
        },
    }
}

/// Taking the keyword argument named `name`: the first inline argument of
/// that name, which leaves the bundle; else the entry of that name in the
/// overflow dictionary, which is forced and left without the entry. With
/// neither, the argument is missing.
pub open spec fn search_keyword(a: ArgumentsView, name: Seq<char>, fuel: nat) -> Result<
    (Value, ArgumentsView),
    Error,
>
    decreases fuel, 2nat, 0nat,
{
    let i = position(a.keywords, name);
    if i < a.keywords.len() {
        Ok((a.keywords[i].value, ArgumentsView { keywords: a.keywords.remove(i), ..a }))
    } else {
        match a.expanded_dict {
            None => Err(Error::Argument(ArgumentError::MissingKeyword)),
            Some(v) => match force_dictionary(v, fuel) {
                Err(e) => Err(e),
                Ok(d) => if d@.contains_key(KeyView::String(name)) {
                    Ok(
                        (
                            d@[KeyView::String(name)],
                            ArgumentsView {
                                expanded_dict: Some(
                                    normal(
                                        Normal::Dictionary(without(d, KeyView::String(name))),
                                    ),
                                ),
                                ..a
                            },
                        ),
                    )
                } else {
                    Err(Error::Argument(ArgumentError::MissingKeyword))
                },
            },
        }
    }
}

/// How many positional arguments a bundle still holds: the inline ones and
/// the elements of the overflow list, which is forced and walked to its end.
/// The count is held at the largest `usize`.
pub open spec fn positionals_left(a: ArgumentsView, fuel: nat) -> Result<usize, Error>
    decreases fuel, 4nat, 0nat,
{
    match a.expanded_list {
        None => Ok(saturating_sum(a.positionals.len(), 0)),
        Some(l) => match force_list(l, fuel) {
            Err(e) => Err(e),
            Ok(list) => match elements(list, fuel) {
                Err(e) => Err(e),
                Ok(es) => Ok(saturating_sum(a.positionals.len(), es.len())),
            },
        },
    }
}

/// How many keyword arguments a bundle still holds: the inline ones and the
/// entries of the overflow dictionary, which is forced. The count is held
/// at the largest `usize`.
pub open spec fn keywords_left(a: ArgumentsView, fuel: nat) -> Result<usize, Error>
    decreases fuel, 4nat, 0nat,
{
    match a.expanded_dict {
        None => Ok(saturating_sum(a.keywords.len(), 0)),
        Some(v) => match force_dictionary(v, fuel) {
            Err(e) => Err(e),
            Ok(d) => Ok(saturating_sum(a.keywords.len(), entries(d).len())),
        },
    }
}

/// Whether a bundle is used up. A failure to force the overflow list is
/// passed on; else any positional argument that is left, inline or in the
/// overflow list, fails the check with their number. Then a failure to
/// force the overflow dictionary is passed on; else any keyword argument
/// that is left, inline or in the overflow dictionary, fails the check with
/// their number.
pub open spec fn check_empty(a: ArgumentsView, fuel: nat) -> Result<(), Error>
    decreases fuel, 5nat, 0nat,
{
    match positionals_left(a, fuel) {
        Err(e) => Err(e),
        Ok(p) => if p > 0 {
            Err(Error::Argument(ArgumentError::PositionalsLeft(p)))
        } else {
            match keywords_left(a, fuel) {
                Err(e) => Err(e),
                Ok(k) => if k > 0 {
                    Err(Error::Argument(ArgumentError::KeywordsLeft(k)))
                } else {
                    Ok(())
                },
            }
        },
    }
}

/// The outcome `r` of binding some parameters, with the values `prefix` of
/// the parameters bound before them in front.
pub open spec fn extend(prefix: Seq<Value>, r: Result<(Seq<Value>, ArgumentsView), Error>) -> Result<
    (Seq<Value>, ArgumentsView),
    Error,
> {
    match r {
        Ok((vs, a)) => Ok((prefix + vs, a)),
        Err(e) => Err(e),
    }
}

pub proof fn lemma_extend(
    prefix: Seq<Value>,
    v: Value,
    r: Result<(Seq<Value>, ArgumentsView), Error>,
)
    ensures
        extend(prefix, extend(seq![v], r)) == extend(prefix.push(v), r),
{
    match r {
        Ok((vs, a)) => {
            assert(prefix + (seq![v] + vs) =~= prefix.push(v) + vs);
        },
        Err(e) => {},
    }
}

/// Where the first argument named `name` stands: nothing in front of it has
/// the name.
pub proof fn lemma_position(ks: Seq<KeywordArgument>, name: Seq<char>)
    ensures
        0 <= position(ks, name) <= ks.len(),
        forall|j: int| 0 <= j < position(ks, name) ==> (#[trigger] ks[j]).name@ != name,
        position(ks, name) < ks.len() ==> ks[position(ks, name)].name@ == name,
    decreases ks.len(),
{
    if ks.len() > 0 && ks[0].name@ != name {
        lemma_position(ks.skip(1), name);
        assert forall|j: int| 0 <= j < position(ks, name) implies (#[trigger] ks[j]).name@
            != name by {
            if j > 0 {
                assert(ks[j] == ks.skip(1)[j - 1]);
            }
        }
    }
}

/// Binding `n` required positional parameters: each takes the next
/// positional argument, and is missing where there is none.
pub open spec fn bind_required(n: nat, a: ArgumentsView) -> Result<
    (Seq<Value>, ArgumentsView),
    Error,
>
    decreases n,
{
    if n == 0 {
        Ok((Seq::empty(), a))
    } else {
        match next_positional(a) {
            (None, _) => Err(Error::Argument(ArgumentError::MissingPositional)),
            (Some(v), b) => match bind_required((n - 1) as nat, b) {
                Err(e) => Err(e),
                Ok((vs, c)) => Ok((seq![v] + vs, c)),
            },
        }
    }
}

/// Binding optional positional parameters: each takes the next positional
/// argument, or where there is none the value of its default, in which the
/// parameters bound so far, `before`, can be spoken of.
pub open spec fn bind_optionals(os: Seq<OptionalView>, a: ArgumentsView, before: Seq<Value>) -> (
    Seq<Value>,
    ArgumentsView,
)
    decreases os.len(),
{
    if os.len() == 0 {
        (Seq::empty(), a)
    } else {
        let (v, b) = match next_positional(a) {
            (None, b) => (instantiate(os[0].default, before), b),
            (Some(v), b) => (v, b),
        };
        let (vs, c) = bind_optionals(os.skip(1), b, before.push(v));
        (seq![v] + vs, c)
    }
}

/// Binding required keyword parameters: each takes the argument of its
/// name.
pub open spec fn bind_keywords(names: Seq<Seq<char>>, a: ArgumentsView, fuel: nat) -> Result<
    (Seq<Value>, ArgumentsView),
    Error,
>
    decreases fuel, 3nat, names.len(),
{
    if names.len() == 0 {
        Ok((Seq::empty(), a))
    } else {
        match search_keyword(a, names[0], fuel) {
            Err(e) => Err(e),
            Ok((v, b)) => match bind_keywords(names.skip(1), b, fuel) {
                Err(e) => Err(e),
                Ok((vs, c)) => Ok((seq![v] + vs, c)),
            },
        }
    }
}

/// Binding optional keyword parameters: each takes the argument of its name,
/// or where that argument is missing the value of its default, in which the
/// parameters bound so far, `before`, can be spoken of. Any other failure of
/// the search is a failure of the binding.
pub open spec fn bind_optional_keywords(
    os: Seq<OptionalView>,
    a: ArgumentsView,
    fuel: nat,
    before: Seq<Value>,
) -> Result<(Seq<Value>, ArgumentsView), Error>
    decreases fuel, 3nat, os.len(),
{
    if os.len() == 0 {
        Ok((Seq::empty(), a))
    } else {
        match search_keyword(a, os[0].name, fuel) {
            Err(Error::Argument(ArgumentError::MissingKeyword)) => {
                let v = instantiate(os[0].default, before);
                match bind_optional_keywords(os.skip(1), a, fuel, before.push(v)) {
                    Err(e) => Err(e),
                    Ok((vs, c)) => Ok((seq![v] + vs, c)),
                }
            },
            Err(e) => Err(e),
            Ok((v, b)) => match bind_optional_keywords(os.skip(1), b, fuel, before.push(v)) {
                Err(e) => Err(e),
                Ok((vs, c)) => Ok((seq![v] + vs, c)),
            },
        }
    }
}

/// Binding the parameters that are given by position: the required ones,
/// the optional ones, and the rest parameter if one is declared, which takes
/// all positional arguments that are left.
pub open spec fn bind_positional_part(s: SignatureView, a: ArgumentsView) -> Result<
    (Seq<Value>, ArgumentsView),
    Error,
> {
    match bind_required(s.positionals.len(), a) {
        Err(e) => Err(e),
        Ok((v1, a1)) => {
            let (v2, a2) = bind_optionals(s.optionals, a1, v1);
            if s.rest.len() > 0 {
                Ok((v1 + v2 + seq![rest_positionals(a2).0], rest_positionals(a2).1))
            } else {
                Ok((v1 + v2, a2))
            }
        },
    }
}

/// Binding the parameters that are given by name: the required ones, the
/// optional ones, and the rest parameter if one is declared, which takes all
/// keyword arguments that are left. The values `before` are those of the
/// parameters given by position.
pub open spec fn bind_keyword_part(
    s: SignatureView,
    a: ArgumentsView,
    fuel: nat,
    before: Seq<Value>,
) -> Result<(Seq<Value>, ArgumentsView), Error>
    decreases fuel, 4nat, 0nat,
{
    match bind_keywords(s.keywords, a, fuel) {
        Err(e) => Err(e),
        Ok((v4, a4)) => match bind_optional_keywords(s.optional_keywords, a4, fuel, before + v4) {
            Err(e) => Err(e),
            Ok((v5, a5)) => if s.rest_keywords.len() > 0 {
                Ok((v4 + v5 + seq![rest_keywords(a5).0], rest_keywords(a5).1))
            } else {
                Ok((v4 + v5, a5))
            },
        },
    }
}

/// Binding the signature `s` against the bundle `a`: one value for each
/// parameter, in the order required positional, optional positional, rest
/// positional, required keyword, optional keyword, rest keyword. The bundle
/// must be used up at the end.
pub open spec fn bind(s: SignatureView, a: ArgumentsView, fuel: nat) -> Result<Seq<Value>, Error>
    decreases fuel, 6nat, 0nat,
{
    match bind_positional_part(s, a) {
        Err(e) => Err(e),
        Ok((ps, b)) => match bind_keyword_part(s, b, fuel, ps) {
            Err(e) => Err(e),
            Ok((ks, c)) => match check_empty(c, fuel) {
                Err(e) => Err(e),
                Ok(_) => Ok(ps + ks),
            },
        },
    }
}

/// What the native function `n` returns for the bound values `vs`.
pub open spec fn run_native(n: Native, vs: Seq<Value>, fuel: nat) -> Result<Value, Error>
    decreases fuel, 5nat, 0nat,
{
    match n {
        Native::List => Ok(vs[0]),
        Native::If => match force_list(vs[0], fuel) {
            Err(e) => Err(e),
            Ok(l) => choose_branch(l, fuel),
        },
        Native::First => match force_list(vs[0], fuel) {
            Err(e) => Err(e),
            Ok(l) => first(l),
        },
        Native::Rest => match force_list(vs[0], fuel) {
            Err(e) => Err(e),
            Ok(l) => match rest(l, fuel) {
                Err(e) => Err(e),
                Ok(r) => Ok(normal(Normal::List(r))),
            },
        },
        Native::Merge => match force(vs[0], fuel) {
            Err(e) => Err(e),
            Ok(Normal::List(l)) => match concat(l, vs[1], fuel) {
                Err(e) => Err(e),
                Ok(r) => Ok(normal(Normal::List(r))),
            },
            Ok(Normal::Dictionary(d)) => match force_dictionary(vs[1], fuel) {
                Err(e) => Err(e),
                Ok(o) => Ok(normal(Normal::Dictionary(merged(d, o)))),
            },
            Ok(_) => Err(Error::Value(ValueError::NotCollection)),
        },
        Native::Insert => match force_dictionary(vs[0], fuel) {
            Err(e) => Err(e),
            Ok(d) => match purify(vs[1], fuel) {
                Err(e) => Err(e),
                Ok(k) => Ok(normal(Normal::Dictionary(with(d, k, vs[2])))),
            },
        },
    }
}

/// What the function `f` returns for the arguments `a`: its signature is
/// bound; then an operation of the runtime runs on the bound values, and a
/// function that was defined returns the value of its body where its
/// parameters are bound to them.
pub open spec fn apply(f: Function, a: ArgumentsView, fuel: nat) -> Result<Value, Error>
    decreases fuel, 7nat, 0nat,
{
    match f {
        Function::Native(n) => match bind(native_signature(n), a, fuel) {
            Err(e) => Err(e),
            Ok(vs) => run_native(n, vs, fuel),
        },
        Function::Closure(c) => match bind(c.signature@, a, fuel) {
            Err(e) => Err(e),
            Ok(vs) => Ok(instantiate(c.body, vs)),
        },
    }
}

/// Whether `a` and `b` are equal: both are forced and their normal forms
/// compared.
pub open spec fn equal(a: Value, b: Value, fuel: nat) -> Result<bool, Error>
    decreases fuel, 9nat, 0nat,
{
    match force(a, fuel) {
        Err(e) => Err(e),
        Ok(x) => match force(b, fuel) {
            Err(e) => Err(e),
            Ok(y) => equal_normal(x, y, fuel),
        },
    }
}

/// Whether two normal forms are equal. Nil equals nil; numbers are compared
/// as IEEE-754 compares them, booleans and strings by what they hold, lists
/// element by element, dictionaries entry by entry, and functions by their
/// identity. Normal forms of different kinds are unequal.
pub open spec fn equal_normal(x: Normal, y: Normal, fuel: nat) -> Result<bool, Error>
    decreases fuel, 8nat, 0nat,
{
    match x {
        Normal::Nil => Ok(y is Nil),
        Normal::Number(n) => Ok(
            match y {
                Normal::Number(m) => ieee_equal(n.bits, m.bits),
                _ => false,
            },
        ),
        Normal::Boolean(b) => Ok(
            match y {
                Normal::Boolean(c) => b == c,
                _ => false,
            },
        ),
        Normal::String(s) => Ok(
            match y {
                Normal::String(t) => s@ == t@,
                _ => false,
            },
        ),
        Normal::List(l) => match y {
            Normal::List(m) => equal_lists(l, m, fuel),
            _ => Ok(false),
        },
        Normal::Dictionary(d) => match y {
            Normal::Dictionary(e) => if size(d) != size(e) {
                Ok(false)
            } else {
                equal_entries(entries(d), e, fuel)
            },
            _ => Ok(false),
        },
        Normal::Function(f) => Ok(
            match y {
                Normal::Function(g) => same_function(f, g),
                _ => false,
            },
        ),
    }
}

/// Whether two lists are equal: both empty, or both with equal first
/// elements and equal rests. The comparison stops at the first difference.
pub open spec fn equal_lists(l: List, m: List, fuel: nat) -> Result<bool, Error>
    decreases fuel, 7nat, 0nat,
{
    match l {
        List::Empty => Ok(m is Empty),
        List::Cons(c) => match m {
            List::Empty => Ok(false),
            List::Cons(d) => if fuel == 0 {
                Err(Error::CyclicForce)
            } else {
                match equal(c.head, d.head, (fuel - 1) as nat) {
                    Err(e) => Err(e),
                    Ok(false) => Ok(false),
                    Ok(true) => match force_list(c.tail, (fuel - 1) as nat) {
                        Err(e) => Err(e),
                        Ok(t) => match force_list(d.tail, (fuel - 1) as nat) {
                            Err(e) => Err(e),
                            Ok(u) => equal_lists(t, u, (fuel - 1) as nat),
                        },
                    },
                }
            },
        },
    }
}

/// Whether each of the entries `es`, taken in their order, has an entry of
/// its key in `other` with an equal value. The comparison stops at the first
/// entry that has none.
pub open spec fn equal_entries(es: Seq<(Key, Value)>, other: Dictionary, fuel: nat) -> Result<
    bool,
    Error,
>
    decreases fuel, 6nat, es.len(),
{
    if es.len() == 0 {
        Ok(true)
    } else {
        match equal_entries(es.drop_last(), other, fuel) {
            Err(e) => Err(e),
            Ok(false) => Ok(false),
            Ok(true) => if !other@.contains_key(es.last().0@) {
                Ok(false)
            } else if fuel == 0 {
                Err(Error::CyclicForce)
            } else {
                equal(es.last().1, other@[es.last().0@], (fuel - 1) as nat)
            },
        }
    }
}

/// The texts `ts` with one space between each two of them.
pub open spec fn join(ts: Seq<Seq<char>>) -> Seq<char>
    decreases ts.len(),
{
    if ts.len() == 0 {
        Seq::empty()
    } else if ts.len() == 1 {
        ts[0]
    } else {
        join(ts.drop_last()) + " "@ + ts.last()
    }
}

/// The text of a key.
pub open spec fn render_key(k: Key) -> Seq<char> {
    match k {
        Key::Nil => "nil"@,
        Key::Number(n) => n.text@,
        Key::String(s) => s@,
    }
}

/// The text of the value `v`, which is forced.
pub open spec fn render(v: Value, fuel: nat) -> Result<Seq<char>, Error>
    decreases fuel, 9nat, 0nat,
{
    match force(v, fuel) {
        Err(e) => Err(e),
        Ok(n) => render_normal(n, fuel),
    }
}

/// The text of a normal form: `nil`, the text of a number, `true` or
/// `false`, a string as it is, the texts of the elements of a list between
/// square brackets, the texts of the keys and values of a dictionary between
/// braces, each key in front of its value.
pub open spec fn render_normal(n: Normal, fuel: nat) -> Result<Seq<char>, Error>
    decreases fuel, 8nat, 0nat,
{
    match n {
        Normal::Nil => Ok("nil"@),
        Normal::Number(x) => Ok(x.text@),
        Normal::Boolean(b) => Ok(
            if b {
                "true"@
            } else {
                "false"@
            },
        ),
        Normal::String(s) => Ok(s@),
        Normal::List(l) => match elements(l, fuel) {
            Err(e) => Err(e),
            Ok(es) => match render_all(es, fuel) {
                Err(e) => Err(e),
                Ok(ts) => Ok("["@ + join(ts) + "]"@),
            },
        },
        Normal::Dictionary(d) => match render_entries(entries(d), fuel) {
            Err(e) => Err(e),
            Ok(ts) => Ok("{"@ + join(ts) + "}"@),
        },
        Normal::Function(f) => Ok("<function>"@),
    }
}

/// The texts of the values `vs`, in their order.
pub open spec fn render_all(vs: Seq<Value>, fuel: nat) -> Result<Seq<Seq<char>>, Error>
    decreases fuel, 7nat, vs.len(),
{
    if vs.len() == 0 {
        Ok(Seq::empty())
    } else {
        match render_all(vs.drop_last(), fuel) {
            Err(e) => Err(e),
            Ok(ts) => if fuel == 0 {
                Err(Error::CyclicForce)
            } else {
                match render(vs.last(), (fuel - 1) as nat) {
                    Err(e) => Err(e),
                    Ok(t) => Ok(ts.push(t)),
                }
            },
        }
    }
}

/// The texts of the entries `es`, in their order: for each entry the text of
/// its key and then the text of its value.
pub open spec fn render_entries(es: Seq<(Key, Value)>, fuel: nat) -> Result<
    Seq<Seq<char>>,
    Error,
>
    decreases fuel, 7nat, es.len(),
{
    if es.len() == 0 {
        Ok(Seq::empty())
    } else {
        match render_entries(es.drop_last(), fuel) {
            Err(e) => Err(e),
            Ok(ts) => if fuel == 0 {
                Err(Error::CyclicForce)
            } else {
                match render(es.last().1, (fuel - 1) as nat) {
                    Err(e) => Err(e),
                    Ok(t) => Ok(ts.push(render_key(es.last().0)).push(t)),
                }
            },
        }
    }
}

/// The dictionary `d` with `v` under the key that `k` forces to.
pub open spec fn insert(d: Dictionary, k: Value, v: Value, fuel: nat) -> Result<Dictionary, Error> {
    match purify(k, fuel) {
        Err(e) => Err(e),
        Ok(key) => Ok(with(d, key, v)),
    }
}

/// The value that `d` holds under the key that `k` forces to.
pub open spec fn find(d: Dictionary, k: Value, fuel: nat) -> Result<Value, Error> {
    match purify(k, fuel) {
        Err(e) => Err(e),
        Ok(key) => if d@.contains_key(key@) {
            Ok(d@[key@])
        } else {
            Err(Error::KeyNotFound(key))
        },
    }
}

/// The dictionary `d` without the entry under the key that `k` forces to.
pub open spec fn delete(d: Dictionary, k: Value, fuel: nat) -> Result<Dictionary, Error> {
    match purify(k, fuel) {
        Err(e) => Err(e),
        Ok(key) => if d@.contains_key(key@) {
            Ok(without(d, key@))
        } else {
            Err(Error::KeyNotFound(key))
        },
    }
}

} // verus!
