//! The parser: for each rule of the grammar a function that reads what the
//! rule describes and builds its syntax tree.

use vstd::prelude::*;
use crate::ast::{
    import_names, lemma_def_function_view, lemma_expression_view, views, Arguments, DefFunction, Effect,
    Expansion, Expression, HalfSignature, Import, InnerStatement, KeywordArgument, LetVariable,
    Module, OptionalParameter, Signature, Statement,
};
use crate::parse::grammar;
use crate::parse::lexical::{
    is_at, match_keyword, match_name, match_number, match_string, skip_blank, unescaped,
};
use crate::parse::text::{characters, string_of};

verus! {

/// Why a text is not a module: at `position`, counted in characters, stands
/// something that is neither an import nor a statement.
#[derive(Debug, PartialEq, Eq)]
pub struct ParsingError {
    pub position: usize,
}

/// Whether the two dots that mark a spread element stand at `pos`.
pub fn is_spread(s: &[char], pos: usize) -> (r: bool)
    requires
        pos <= s@.len(),
    ensures
        r == grammar::spread(s@, pos as int),
        r ==> pos + 2 <= s@.len() && pos + 2 <= usize::MAX,
{
    let _len: usize = s.len();
    is_at(s, pos, '.') && is_at(s, pos + 1, '.')
}

/// Whether the single dot that separates keyword from positional parts
/// stands at `pos`.
pub fn is_separator(s: &[char], pos: usize) -> (r: bool)
    requires
        pos <= s@.len(),
    ensures
        r == grammar::separator(s@, pos as int),
        r ==> pos + 1 <= s@.len() && pos + 1 <= usize::MAX,
{
    let _len: usize = s.len();
    is_at(s, pos, '.') && !is_at(s, pos + 1, '.')
}

/// The expression at `pos`, and where it ends.
pub fn expression(s: &[char], pos: usize) -> (r: Option<(Expression, usize)>)
    requires
        pos <= s@.len(),
    ensures
        match r {
            Some((e, p)) => grammar::expression(s@, pos as int) == Some((e@, p as int)) && pos < p
                <= s@.len(),
            None => grammar::expression(s@, pos as int) is None,
        },
    decreases s@.len() - pos, 2nat,
{
    let _len: usize = s.len();
    proof {
        reveal_strlit("true");
        reveal_strlit("false");
        reveal_strlit("nil");
    }
    if let Some(e) = match_keyword(s, pos, "true") {
        return Some((Expression::Boolean(true), e));
    }
    if let Some(e) = match_keyword(s, pos, "false") {
        return Some((Expression::Boolean(false), e));
    }
    if let Some(e) = match_keyword(s, pos, "nil") {
        return Some((Expression::Nil, e));
    }
    if let Some(e) = match_number(s, pos) {
        return Some((Expression::Number(string_of(s, pos, e)), e));
    }
    if let Some(e) = match_string(s, pos) {
        return Some((Expression::String(unescaped(s, pos + 1, e - 1)), e));
    }
    if is_at(s, pos, '[') {
        return list(s, pos);
    }
    if is_at(s, pos, '{') {
        return dictionary(s, pos);
    }
    if is_at(s, pos, '(') {
        return application(s, pos);
    }
    if let Some(e) = match_name(s, pos) {
        return Some((Expression::Name(string_of(s, pos, e)), e));
    }
    None
}

/// The list at `pos`, and where it ends.
pub fn list(s: &[char], pos: usize) -> (r: Option<(Expression, usize)>)
    requires
        pos <= s@.len(),
    ensures
        match r {
            Some((e, p)) => grammar::list(s@, pos as int) == Some((e@, p as int)) && pos < p
                <= s@.len(),
            None => grammar::list(s@, pos as int) is None,
        },
    decreases s@.len() - pos, 1nat,
{
    let _len: usize = s.len();
    if !is_at(s, pos, '[') {
        return None;
    }
    let p = skip_blank(s, pos + 1);
    let (es, q) = elements(s, p);
    if is_at(s, q, ']') {
        let e = Expression::List(es);
        proof {
            lemma_expression_view(e);
        }
        Some((e, q + 1))
    } else {
        None
    }
}

/// The elements of a list, or the positional arguments of an application,
/// from `pos` on, and where they end.
pub fn elements(s: &[char], pos: usize) -> (r: (Vec<Expansion<Expression>>, usize))
    requires
        pos <= s@.len(),
    ensures
        grammar::elements(s@, pos as int) == (views(r.0@), r.1 as int),
        pos <= r.1 <= s@.len(),
    decreases s@.len() - pos, 4nat,
{
    let mut out: Vec<Expansion<Expression>> = Vec::new();
    let mut cur: usize = pos;
    proof {
        assert(views(out@) + grammar::elements(s@, pos as int).0 =~= grammar::elements(
            s@,
            pos as int,
        ).0);
    }
    loop
        invariant
            pos <= cur <= s@.len(),
            grammar::elements(s@, pos as int) == (
                views(out@) + grammar::elements(s@, cur as int).0,
                grammar::elements(s@, cur as int).1,
            ),
        decreases s@.len() - cur,
    {
        match list_element(s, cur) {
            None => {
                proof {
                    assert(views(out@) + Seq::<crate::ast::ExpansionView<crate::ast::ExpressionView>>::empty()
                        =~= views(out@));
                }
                return (out, cur);
            },
            Some((e, p)) => {
                let q = skip_blank(s, p);
                proof {
                    let rest = grammar::elements(s@, q as int).0;
                    assert(views(out@) + (seq![e@] + rest) =~= views(out@.push(e)) + rest);
                }
                out.push(e);
                cur = q;
            },
        }
    }
}

/// The element at `pos`, and where it ends.
pub fn list_element(s: &[char], pos: usize) -> (r: Option<(Expansion<Expression>, usize)>)
    requires
        pos <= s@.len(),
    ensures
        match r {
            Some((e, p)) => grammar::element(s@, pos as int) == Some((e@, p as int)) && pos < p
                <= s@.len(),
            None => grammar::element(s@, pos as int) is None,
        },
    decreases s@.len() - pos, 3nat,
{
    if is_spread(s, pos) {
        match expression(s, pos + 2) {
            Some((e, p)) => Some((Expansion::Expanded(e), p)),
            None => None,
        }
    } else {
        match expression(s, pos) {
            Some((e, p)) => Some((Expansion::Unexpanded(e), p)),
            None => None,
        }
    }
}

/// The dictionary at `pos`, and where it ends.
pub fn dictionary(s: &[char], pos: usize) -> (r: Option<(Expression, usize)>)
    requires
        pos <= s@.len(),
    ensures
        match r {
            Some((e, p)) => grammar::dictionary(s@, pos as int) == Some((e@, p as int)) && pos < p
                <= s@.len(),
            None => grammar::dictionary(s@, pos as int) is None,
        },
    decreases s@.len() - pos, 1nat,
{
    let _len: usize = s.len();
    if !is_at(s, pos, '{') {
        return None;
    }
    let p = skip_blank(s, pos + 1);
    let (es, q) = dictionary_elements(s, p);
    if is_at(s, q, '}') {
        let e = Expression::Dictionary(es);
        proof {
            lemma_expression_view(e);
        }
        Some((e, q + 1))
    } else {
        None
    }
}

/// The entries of a dictionary from `pos` on, and where they end.
pub fn dictionary_elements(s: &[char], pos: usize) -> (r: (
    Vec<Expansion<(Expression, Expression)>>,
    usize,
))
    requires
        pos <= s@.len(),
    ensures
        grammar::entries(s@, pos as int) == (views(r.0@), r.1 as int),
        pos <= r.1 <= s@.len(),
    decreases s@.len() - pos, 4nat,
{
    let mut out: Vec<Expansion<(Expression, Expression)>> = Vec::new();
    let mut cur: usize = pos;
    proof {
        assert(views(out@) + grammar::entries(s@, pos as int).0 =~= grammar::entries(
            s@,
            pos as int,
        ).0);
    }
    loop
        invariant
            pos <= cur <= s@.len(),
            grammar::entries(s@, pos as int) == (
                views(out@) + grammar::entries(s@, cur as int).0,
                grammar::entries(s@, cur as int).1,
            ),
        decreases s@.len() - cur,
    {
        match dictionary_element(s, cur) {
            None => {
                proof {
                    assert(views(out@) + Seq::<
                        crate::ast::ExpansionView<
                            (crate::ast::ExpressionView, crate::ast::ExpressionView),
                        >,
                    >::empty() =~= views(out@));
                }
                return (out, cur);
            },
            Some((e, p)) => {
                let q = skip_blank(s, p);
                proof {
                    let rest = grammar::entries(s@, q as int).0;
                    assert(views(out@) + (seq![e@] + rest) =~= views(out@.push(e)) + rest);
                }
                out.push(e);
                cur = q;
            },
        }
    }
}

/// The entry at `pos`, and where it ends.
pub fn dictionary_element(s: &[char], pos: usize) -> (r: Option<
    (Expansion<(Expression, Expression)>, usize),
>)
    requires
        pos <= s@.len(),
    ensures
        match r {
            Some((e, p)) => grammar::entry(s@, pos as int) == Some((e@, p as int)) && pos < p
                <= s@.len(),
            None => grammar::entry(s@, pos as int) is None,
        },
    decreases s@.len() - pos, 3nat,
{
    if is_spread(s, pos) {
        match expression(s, pos + 2) {
            Some((e, p)) => Some((Expansion::Expanded(e), p)),
            None => None,
        }
    } else {
        match expression(s, pos) {
            Some((k, p)) => {
                let q = skip_blank(s, p);
                match expression(s, q) {
                    Some((v, r)) => Some((Expansion::Unexpanded((k, v)), r)),
                    None => None,
                }
            },
            None => None,
        }
    }
}

/// The application at `pos`, and where it ends.
pub fn application(s: &[char], pos: usize) -> (r: Option<(Expression, usize)>)
    requires
        pos <= s@.len(),
    ensures
        match r {
            Some((e, p)) => grammar::application(s@, pos as int) == Some((e@, p as int)) && pos
                < p <= s@.len(),
            None => grammar::application(s@, pos as int) is None,
        },
    decreases s@.len() - pos, 1nat,
{
    let _len: usize = s.len();
    if !is_at(s, pos, '(') {
        return None;
    }
    let p = skip_blank(s, pos + 1);
    match expression(s, p) {
        None => None,
        Some((f, q)) => {
            let r = skip_blank(s, q);
            let (a, t) = arguments(s, r);
            if is_at(s, t, ')') {
                let e = Expression::App(Box::new(f), a);
                proof {
                    lemma_expression_view(e);
                }
                Some((e, t + 1))
            } else {
                None
            }
        },
    }
}

/// The arguments from `pos` on, and where they end.
pub fn arguments(s: &[char], pos: usize) -> (r: (Arguments, usize))
    requires
        pos <= s@.len(),
    ensures
        grammar::arguments(s@, pos as int) == (
            crate::ast::ArgumentsView {
                positionals: views(r.0.positionals@),
                keywords: views(r.0.keywords@),
            },
            r.1 as int,
        ),
        pos <= r.1 <= s@.len(),
    decreases s@.len() - pos, 5nat,
{
    let _len: usize = s.len();
    let (ps, p) = elements(s, pos);
    if is_separator(s, p) {
        let q = skip_blank(s, p + 1);
        let (ks, r) = keyword_arguments(s, q);
        (Arguments::new(ps, ks), r)
    } else {
        let ks: Vec<Expansion<KeywordArgument>> = Vec::new();
        proof {
            assert(views(ks@) =~= Seq::<
                crate::ast::ExpansionView<crate::ast::KeywordArgumentView>,
            >::empty());
        }
        (Arguments::new(ps, ks), p)
    }
}

/// The keyword arguments from `pos` on, and where they end.
pub fn keyword_arguments(s: &[char], pos: usize) -> (r: (Vec<Expansion<KeywordArgument>>, usize))
    requires
        pos <= s@.len(),
    ensures
        grammar::keyword_elements(s@, pos as int) == (views(r.0@), r.1 as int),
        pos <= r.1 <= s@.len(),
    decreases s@.len() - pos, 4nat,
{
    let mut out: Vec<Expansion<KeywordArgument>> = Vec::new();
    let mut cur: usize = pos;
    proof {
        assert(views(out@) + grammar::keyword_elements(s@, pos as int).0
            =~= grammar::keyword_elements(s@, pos as int).0);
    }
    loop
        invariant
            pos <= cur <= s@.len(),
            grammar::keyword_elements(s@, pos as int) == (
                views(out@) + grammar::keyword_elements(s@, cur as int).0,
                grammar::keyword_elements(s@, cur as int).1,
            ),
        decreases s@.len() - cur,
    {
        match keyword_argument(s, cur) {
            None => {
                proof {
                    assert(views(out@) + Seq::<
                        crate::ast::ExpansionView<crate::ast::KeywordArgumentView>,
                    >::empty() =~= views(out@));
                }
                return (out, cur);
            },
            Some((e, p)) => {
                let q = skip_blank(s, p);
                proof {
                    let rest = grammar::keyword_elements(s@, q as int).0;
                    assert(views(out@) + (seq![e@] + rest) =~= views(out@.push(e)) + rest);
                }
                out.push(e);
                cur = q;
            },
        }
    }
}

/// The keyword argument at `pos`, and where it ends.
pub fn keyword_argument(s: &[char], pos: usize) -> (r: Option<
    (Expansion<KeywordArgument>, usize),
>)
    requires
        pos <= s@.len(),
    ensures
        match r {
            Some((e, p)) => grammar::keyword_element(s@, pos as int) == Some((e@, p as int))
                && pos < p <= s@.len(),
            None => grammar::keyword_element(s@, pos as int) is None,
        },
    decreases s@.len() - pos, 3nat,
{
    if is_spread(s, pos) {
        match expression(s, pos + 2) {
            Some((e, p)) => Some((Expansion::Expanded(e), p)),
            None => None,
        }
    } else {
        match match_name(s, pos) {
            Some(e) => {
                let q = skip_blank(s, e);
                match expression(s, q) {
                    Some((v, r)) => Some(
                        (
                            Expansion::Unexpanded(KeywordArgument::new(string_of(s, pos, e), v)),
                            r,
                        ),
                    ),
                    None => None,
                }
            },
            None => None,
        }
    }
}

/// Between round brackets at `pos`, a name and an expression, with `word`
/// in front of them if it is not empty.
fn binding(s: &[char], pos: usize, word: &str) -> (r: Option<(String, Expression, usize)>)
    requires
        pos <= s@.len(),
    ensures
        match r {
            Some((n, v, p)) => grammar::binding(s@, pos as int, word@) == Some(
                (n@, v@, p as int),
            ) && pos < p <= s@.len(),
            None => grammar::binding(s@, pos as int, word@) is None,
        },
{
    let _len: usize = s.len();
    if !is_at(s, pos, '(') {
        return None;
    }
    let inside = skip_blank(s, pos + 1);
    let p: usize = if word.is_empty() {
        inside
    } else {
        match match_keyword(s, inside, word) {
            Some(e) => skip_blank(s, e),
            None => {
                return None;
            },
        }
    };
    let e = match match_name(s, p) {
        Some(e) => e,
        None => {
            return None;
        },
    };
    match expression(s, skip_blank(s, e)) {
        Some((v, q)) => {
            let t = skip_blank(s, q);
            if is_at(s, t, ')') {
                Some((string_of(s, p, e), v, t + 1))
            } else {
                None
            }
        },
        None => None,
    }
}

/// The optional parameter at `pos`, and where it ends.
pub fn optional_parameter(s: &[char], pos: usize) -> (r: Option<(OptionalParameter, usize)>)
    requires
        pos <= s@.len(),
    ensures
        match r {
            Some((o, p)) => grammar::optional_parameter(s@, pos as int) == Some((o@, p as int))
                && pos < p <= s@.len(),
            None => grammar::optional_parameter(s@, pos as int) is None,
        },
{
    proof {
        reveal_strlit("");
    }
    match binding(s, pos, "") {
        Some((n, v, e)) => Some((OptionalParameter::new(n, v), e)),
        None => None,
    }
}

/// The variable definition at `pos`, and where it ends.
pub fn let_variable(s: &[char], pos: usize) -> (r: Option<(LetVariable, usize)>)
    requires
        pos <= s@.len(),
    ensures
        match r {
            Some((l, p)) => grammar::let_variable(s@, pos as int) == Some((l@, p as int)) && pos
                < p <= s@.len(),
            None => grammar::let_variable(s@, pos as int) is None,
        },
{
    match binding(s, pos, "let") {
        Some((n, v, e)) => Some((LetVariable::new(n, v), e)),
        None => None,
    }
}

/// The names from `pos` on, and where they end.
fn names(s: &[char], pos: usize) -> (r: (Vec<String>, usize))
    requires
        pos <= s@.len(),
    ensures
        grammar::names(s@, pos as int) == (crate::runtime::signature::texts(r.0@), r.1 as int),
        pos <= r.1 <= s@.len(),
{
    let mut out: Vec<String> = Vec::new();
    let mut cur: usize = pos;
    proof {
        assert(crate::runtime::signature::texts(out@) + grammar::names(s@, pos as int).0
            =~= grammar::names(s@, pos as int).0);
    }
    loop
        invariant
            pos <= cur <= s@.len(),
            grammar::names(s@, pos as int) == (
                crate::runtime::signature::texts(out@) + grammar::names(s@, cur as int).0,
                grammar::names(s@, cur as int).1,
            ),
        decreases s@.len() - cur,
    {
        match match_name(s, cur) {
            None => {
                proof {
                    assert(crate::runtime::signature::texts(out@) + Seq::<Seq<char>>::empty()
                        =~= crate::runtime::signature::texts(out@));
                }
                return (out, cur);
            },
            Some(e) => {
                let q = skip_blank(s, e);
                let n = string_of(s, cur, e);
                proof {
                    let rest = grammar::names(s@, q as int).0;
                    assert(crate::runtime::signature::texts(out@) + (seq![n@] + rest)
                        =~= crate::runtime::signature::texts(out@.push(n)) + rest);
                }
                out.push(n);
                cur = q;
            },
        }
    }
}

/// The optional parameters from `pos` on, and where they end.
fn optionals(s: &[char], pos: usize) -> (r: (Vec<OptionalParameter>, usize))
    requires
        pos <= s@.len(),
    ensures
        grammar::optionals(s@, pos as int) == (views(r.0@), r.1 as int),
        pos <= r.1 <= s@.len(),
{
    let mut out: Vec<OptionalParameter> = Vec::new();
    let mut cur: usize = pos;
    proof {
        assert(views(out@) + grammar::optionals(s@, pos as int).0 =~= grammar::optionals(
            s@,
            pos as int,
        ).0);
    }
    loop
        invariant
            pos <= cur <= s@.len(),
            grammar::optionals(s@, pos as int) == (
                views(out@) + grammar::optionals(s@, cur as int).0,
                grammar::optionals(s@, cur as int).1,
            ),
        decreases s@.len() - cur,
    {
        match optional_parameter(s, cur) {
            None => {
                proof {
                    assert(views(out@) + Seq::<crate::ast::OptionalParameterView>::empty()
                        =~= views(out@));
                }
                return (out, cur);
            },
            Some((o, p)) => {
                let q = skip_blank(s, p);
                proof {
                    let rest = grammar::optionals(s@, q as int).0;
                    assert(views(out@) + (seq![o@] + rest) =~= views(out@.push(o)) + rest);
                }
                out.push(o);
                cur = q;
            },
        }
    }
}

/// One half of a signature from `pos` on, and where it ends.
pub fn half_signature(s: &[char], pos: usize) -> (r: (HalfSignature, usize))
    requires
        pos <= s@.len(),
    ensures
        grammar::half_signature(s@, pos as int) == (r.0@, r.1 as int),
        pos <= r.1 <= s@.len(),
{
    let _len: usize = s.len();
    let (ns, p) = names(s, pos);
    let (os, q) = optionals(s, p);
    let mut rest: String = String::new();
    let mut end: usize = q;
    if is_spread(s, q) {
        if let Some(e) = match_name(s, q + 2) {
            rest = string_of(s, q + 2, e);
            end = skip_blank(s, e);
        }
    }
    let h = HalfSignature::new(ns, os, rest);
    proof {
        assert(h@.requireds =~= crate::runtime::signature::texts(ns@));
        assert(h@.optionals =~= views(os@));
    }
    (h, end)
}

/// The signature from `pos` on, and where it ends.
pub fn signature(s: &[char], pos: usize) -> (r: (Signature, usize))
    requires
        pos <= s@.len(),
    ensures
        grammar::signature(s@, pos as int) == (r.0@, r.1 as int),
        pos <= r.1 <= s@.len(),
{
    let _len: usize = s.len();
    let (h, p) = half_signature(s, pos);
    if is_separator(s, p) {
        let (k, q) = half_signature(s, skip_blank(s, p + 1));
        (Signature::new(h, k), q)
    } else {
        (Signature::new(h, HalfSignature::default()), p)
    }
}

/// The function definition at `pos`, and where it ends.
pub fn def_function(s: &[char], pos: usize) -> (r: Option<(DefFunction, usize)>)
    requires
        pos <= s@.len(),
    ensures
        match r {
            Some((d, p)) => grammar::def_function(s@, pos as int) == Some((d@, p as int)) && pos
                < p <= s@.len(),
            None => grammar::def_function(s@, pos as int) is None,
        },
    decreases s@.len() - pos, 1nat,
{
    let _len: usize = s.len();
    if !is_at(s, pos, '(') {
        return None;
    }
    let e = match match_keyword(s, skip_blank(s, pos + 1), "def") {
        Some(e) => e,
        None => {
            return None;
        },
    };
    let p = skip_blank(s, e);
    if !is_at(s, p, '(') {
        return None;
    }
    let start = skip_blank(s, p + 1);
    let n = match match_name(s, start) {
        Some(n) => n,
        None => {
            return None;
        },
    };
    let (sig, q) = signature(s, skip_blank(s, n));
    if !is_at(s, q, ')') {
        return None;
    }
    let r = skip_blank(s, q + 1);
    let (inner, t) = inner_statements(s, r);
    match expression(s, t) {
        Some((b, u)) => {
            let v = skip_blank(s, u);
            if is_at(s, v, ')') {
                let d = DefFunction::new(string_of(s, start, n), sig, inner, b);
                proof {
                    lemma_def_function_view(d);
                }
                Some((d, v + 1))
            } else {
                None
            }
        },
        None => None,
    }
}

/// The inner statement at `pos`, and where it ends.
pub fn inner_statement(s: &[char], pos: usize) -> (r: Option<(InnerStatement, usize)>)
    requires
        pos <= s@.len(),
    ensures
        match r {
            Some((i, p)) => grammar::inner_statement(s@, pos as int) == Some((i@, p as int))
                && pos < p <= s@.len(),
            None => grammar::inner_statement(s@, pos as int) is None,
        },
    decreases s@.len() - pos, 2nat,
{
    match def_function(s, pos) {
        Some((d, p)) => Some((InnerStatement::DefFunction(d), p)),
        None => match let_variable(s, pos) {
            Some((l, p)) => Some((InnerStatement::LetVariable(l), p)),
            None => None,
        },
    }
}

/// The inner statements from `pos` on, and where they end.
fn inner_statements(s: &[char], pos: usize) -> (r: (Vec<InnerStatement>, usize))
    requires
        pos <= s@.len(),
    ensures
        grammar::inner_statements(s@, pos as int) == (views(r.0@), r.1 as int),
        pos <= r.1 <= s@.len(),
    decreases s@.len() - pos, 3nat,
{
    let mut out: Vec<InnerStatement> = Vec::new();
    let mut cur: usize = pos;
    proof {
        assert(views(out@) + grammar::inner_statements(s@, pos as int).0
            =~= grammar::inner_statements(s@, pos as int).0);
    }
    loop
        invariant
            pos <= cur <= s@.len(),
            grammar::inner_statements(s@, pos as int) == (
                views(out@) + grammar::inner_statements(s@, cur as int).0,
                grammar::inner_statements(s@, cur as int).1,
            ),
        decreases s@.len() - cur,
    {
        match inner_statement(s, cur) {
            None => {
                proof {
                    assert(views(out@) + Seq::<crate::ast::InnerStatementView>::empty()
                        =~= views(out@));
                }
                return (out, cur);
            },
            Some((i, p)) => {
                let q = skip_blank(s, p);
                proof {
                    let rest = grammar::inner_statements(s@, q as int).0;
                    assert(views(out@) + (seq![i@] + rest) =~= views(out@.push(i)) + rest);
                }
                out.push(i);
                cur = q;
            },
        }
    }
}

/// The effect at `pos`, and where it ends.
pub fn effect(s: &[char], pos: usize) -> (r: Option<(Effect, usize)>)
    requires
        pos <= s@.len(),
    ensures
        match r {
            Some((e, p)) => grammar::effect(s@, pos as int) == Some((e@, p as int)) && pos < p
                <= s@.len(),
            None => grammar::effect(s@, pos as int) is None,
        },
{
    if is_spread(s, pos) {
        match expression(s, pos + 2) {
            Some((e, p)) => Some((Effect::new(e, true), p)),
            None => None,
        }
    } else {
        match expression(s, pos) {
            Some((e, p)) => Some((Effect::new(e, false), p)),
            None => None,
        }
    }
}

/// The statement at `pos`, and where it ends. In a main module a statement
/// is a definition or an effect; in another module it is a definition.
pub fn statement(s: &[char], pos: usize, main: bool) -> (r: Option<(Statement, usize)>)
    requires
        pos <= s@.len(),
    ensures
        match r {
            Some((t, p)) => (if main {
                grammar::statement(s@, pos as int)
            } else {
                grammar::top_inner_statement(s@, pos as int)
            }) == Some((t@, p as int)) && pos < p <= s@.len(),
            None => (if main {
                grammar::statement(s@, pos as int)
            } else {
                grammar::top_inner_statement(s@, pos as int)
            }) is None,
        },
{
    match inner_statement(s, pos) {
        Some((InnerStatement::DefFunction(d), p)) => Some((Statement::DefFunction(d), p)),
        Some((InnerStatement::LetVariable(l), p)) => Some((Statement::LetVariable(l), p)),
        None => {
            if main {
                match effect(s, pos) {
                    Some((e, p)) => Some((Statement::Effect(e), p)),
                    None => None,
                }
            } else {
                None
            }
        },
    }
}

/// The import at `pos`, and where it ends.
pub fn import(s: &[char], pos: usize) -> (r: Option<(Import, usize)>)
    requires
        pos <= s@.len(),
    ensures
        match r {
            Some((i, p)) => grammar::import(s@, pos as int) == Some((i.name@, p as int)) && pos
                < p <= s@.len(),
            None => grammar::import(s@, pos as int) is None,
        },
{
    let _len: usize = s.len();
    if !is_at(s, pos, '(') {
        return None;
    }
    let e = match match_keyword(s, skip_blank(s, pos + 1), "import") {
        Some(e) => e,
        None => {
            return None;
        },
    };
    let start = skip_blank(s, e);
    match match_string(s, start) {
        Some(q) => {
            let t = skip_blank(s, q);
            if is_at(s, t, ')') {
                Some((Import::new(string_of(s, start + 1, q - 1)), t + 1))
            } else {
                None
            }
        },
        None => None,
    }
}

/// The module that the text `s` is: its imports and its statements.
pub fn module(main: bool, s: &str) -> (r: Result<Module, ParsingError>)
    ensures
        match r {
            Ok(m) => grammar::module(s@, main) == Ok::<crate::ast::ModuleView, int>(m@),
            Err(e) => grammar::module(s@, main) == Err::<crate::ast::ModuleView, int>(
                e.position as int,
            ),
        },
{
    let cs = characters(s);
    let s = cs.as_slice();
    let start = skip_blank(s, 0);
    let mut is: Vec<Import> = Vec::new();
    let mut ss: Vec<Statement> = Vec::new();
    let mut cur: usize = start;
    proof {
        let all = grammar::items(s@, start as int, main);
        assert(import_names(is@) + all.0 =~= all.0);
        assert(views(ss@) + all.1 =~= all.1);
    }
    loop
        invariant
            start <= cur <= s@.len(),
            grammar::items(s@, start as int, main) == (
                import_names(is@) + grammar::items(s@, cur as int, main).0,
                views(ss@) + grammar::items(s@, cur as int, main).1,
                grammar::items(s@, cur as int, main).2,
            ),
        ensures
            cur <= s@.len(),
            grammar::items(s@, start as int, main) == (import_names(is@), views(ss@), cur as int),
        decreases s@.len() - cur,
    {
        match import(s, cur) {
            Some((i, p)) => {
                let q = skip_blank(s, p);
                proof {
                    let rest = grammar::items(s@, q as int, main).0;
                    assert(import_names(is@) + (seq![i.name@] + rest) =~= import_names(is@.push(i))
                        + rest);
                }
                is.push(i);
                cur = q;
            },
            None => match statement(s, cur, main) {
                Some((t, p)) => {
                    let q = skip_blank(s, p);
                    proof {
                        let rest = grammar::items(s@, q as int, main).1;
                        assert(views(ss@) + (seq![t@] + rest) =~= views(ss@.push(t)) + rest);
                    }
                    ss.push(t);
                    cur = q;
                },
                None => {
                    proof {
                        assert(import_names(is@) + Seq::<Seq<char>>::empty() =~= import_names(is@));
                        assert(views(ss@) + Seq::<crate::ast::StatementView>::empty() =~= views(
                            ss@,
                        ));
                    }
                    break;
                },
            },
        }
    }
    if cur == s.len() {
        let m = Module::new(is, ss);
        proof {
            assert(m@.imports =~= import_names(is@));
            assert(m@.statements =~= views(ss@));
        }
        Ok(m)
    } else {
        Err(ParsingError { position: cur })
    }
}

/// The main module that the text `s` is: imports, definitions and effects,
/// with whitespace and comments between them. A text that holds anything
/// else is rejected, with the place where that stands.
pub fn main_module(s: &str) -> (r: Result<Module, ParsingError>)
    ensures
        match r {
            Ok(m) => grammar::module(s@, true) == Ok::<crate::ast::ModuleView, int>(m@),
            Err(e) => grammar::module(s@, true) == Err::<crate::ast::ModuleView, int>(
                e.position as int,
            ),
        },
{
    module(true, s)
}

/// The module that the text `s` is, where it is not the main module:
/// imports and definitions, with whitespace and comments between them. A
/// text that holds anything else, an effect too, is rejected, with the place
/// where that stands.
pub fn sub_module(s: &str) -> (r: Result<Module, ParsingError>)
    ensures
        match r {
            Ok(m) => grammar::module(s@, false) == Ok::<crate::ast::ModuleView, int>(m@),
            Err(e) => grammar::module(s@, false) == Err::<crate::ast::ModuleView, int>(
                e.position as int,
            ),
        },
{
    module(false, s)
}

} // verus!
