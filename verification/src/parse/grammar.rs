//! The grammar, as functions from a text and a place in it to what stands
//! there and where that ends.
//!
//! ```text
//! main module      = blank (import | statement)* end
//! other module     = blank (import | inner statement)* end
//! import           = "(" "import" string ")"
//! statement        = inner statement | effect
//! inner statement  = def function | let variable
//! effect           = ".."? expression
//! def function     = "(" "def" "(" name signature ")" inner statement* expression ")"
//! let variable     = "(" "let" name expression ")"
//! signature        = half signature ("." half signature)?
//! half signature   = name* optional parameter* (".." name)?
//! optional parameter = "(" name expression ")"
//! expression       = "true" | "false" | "nil" | number | string
//!                  | list | dictionary | application | name
//! list             = "[" element* "]"
//! dictionary       = "{" entry* "}"
//! application      = "(" expression element* ("." keyword argument*)? ")"
//! element          = ".."? expression
//! entry            = ".." expression | expression expression
//! keyword argument = ".." expression | name expression
//! anonymous function = "(" "\" "(" signature ")" expression ")"
//! match expression = "(" "match" expression (expression expression)+ ")"
//! ```
//!
//! Alternatives are tried from left to right and the first that fits is
//! taken; a repetition takes as much as it can. Whitespace and comments may
//! stand between any two parts, but not behind the two dots of a spread.

use vstd::prelude::*;
use crate::ast::{
    ArgumentsView, DefFunctionView, EffectView, ExpansionView, ExpressionView, HalfSignatureView,
    InnerStatementView, KeywordArgumentView, LetVariableView, ModuleView, OptionalParameterView,
    SignatureView, StatementView,
};
use crate::parse::lexical::{at, keyword, name, number, skip, string, unescape};

verus! {

/// Whether `p` lies behind `pos` and within the text.
pub open spec fn ahead(s: Seq<char>, pos: int, p: int) -> bool {
    pos < p <= s.len()
}

/// Whether the two dots that mark a spread element stand at `pos`.
pub open spec fn spread(s: Seq<char>, pos: int) -> bool {
    at(s, pos, '.') && at(s, pos + 1, '.')
}

/// Whether the single dot that separates the keyword arguments or
/// parameters from the positional ones stands at `pos`.
pub open spec fn separator(s: Seq<char>, pos: int) -> bool {
    at(s, pos, '.') && !at(s, pos + 1, '.')
}

/// An expression at `pos`, and where it ends. The forms are tried in this
/// order: `true`, `false`, `nil`, a number, a string, a list, a dictionary,
/// an application, a name.
pub open spec fn expression(s: Seq<char>, pos: int) -> Option<(ExpressionView, int)>
    decreases s.len() - pos, 2nat,
{
    if let Some(e) = keyword(s, pos, "true"@) {
        Some((ExpressionView::Boolean(true), e))
    } else if let Some(e) = keyword(s, pos, "false"@) {
        Some((ExpressionView::Boolean(false), e))
    } else if let Some(e) = keyword(s, pos, "nil"@) {
        Some((ExpressionView::Nil, e))
    } else if let Some(e) = number(s, pos) {
        Some((ExpressionView::Number(s.subrange(pos, e)), e))
    } else if let Some(e) = string(s, pos) {
        Some((ExpressionView::String(unescape(s.subrange(pos + 1, e - 1))), e))
    } else if at(s, pos, '[') {
        list(s, pos)
    } else if at(s, pos, '{') {
        dictionary(s, pos)
    } else if at(s, pos, '(') {
        application(s, pos)
    } else if let Some(e) = name(s, pos) {
        Some((ExpressionView::Name(s.subrange(pos, e)), e))
    } else {
        None
    }
}

/// A list at `pos`: elements between square brackets.
pub open spec fn list(s: Seq<char>, pos: int) -> Option<(ExpressionView, int)>
    decreases s.len() - pos, 1nat,
{
    let p = skip(s, pos + 1);
    if at(s, pos, '[') && ahead(s, pos, p) {
        let (es, q) = elements(s, p);
        if at(s, q, ']') {
            Some((ExpressionView::List(es), q + 1))
        } else {
            None
        }
    } else {
        None
    }
}

/// The elements from `pos` on, as many as there are, and where they end.
pub open spec fn elements(s: Seq<char>, pos: int) -> (Seq<ExpansionView<ExpressionView>>, int)
    decreases s.len() - pos, 4nat,
{
    match element(s, pos) {
        Some((e, p)) => {
            let q = skip(s, p);
            if ahead(s, pos, q) {
                let (es, r) = elements(s, q);
                (seq![e] + es, r)
            } else {
                (seq![e], q)
            }
        },
        None => (Seq::empty(), pos),
    }
}

/// An element at `pos`: an expression, spread if two dots stand in front of
/// it.
pub open spec fn element(s: Seq<char>, pos: int) -> Option<(ExpansionView<ExpressionView>, int)>
    decreases s.len() - pos, 3nat,
{
    if spread(s, pos) {
        match expression(s, pos + 2) {
            Some((e, p)) => Some((ExpansionView::Expanded(e), p)),
            None => None,
        }
    } else {
        match expression(s, pos) {
            Some((e, p)) => Some((ExpansionView::Unexpanded(e), p)),
            None => None,
        }
    }
}

/// A dictionary at `pos`: entries between braces.
pub open spec fn dictionary(s: Seq<char>, pos: int) -> Option<(ExpressionView, int)>
    decreases s.len() - pos, 1nat,
{
    let p = skip(s, pos + 1);
    if at(s, pos, '{') && ahead(s, pos, p) {
        let (es, q) = entries(s, p);
        if at(s, q, '}') {
            Some((ExpressionView::Dictionary(es), q + 1))
        } else {
            None
        }
    } else {
        None
    }
}

/// The entries from `pos` on, as many as there are, and where they end.
pub open spec fn entries(s: Seq<char>, pos: int) -> (
    Seq<ExpansionView<(ExpressionView, ExpressionView)>>,
    int,
)
    decreases s.len() - pos, 4nat,
{
    match entry(s, pos) {
        Some((e, p)) => {
            let q = skip(s, p);
            if ahead(s, pos, q) {
                let (es, r) = entries(s, q);
                (seq![e] + es, r)
            } else {
                (seq![e], q)
            }
        },
        None => (Seq::empty(), pos),
    }
}

/// An entry at `pos`: a key and a value, or a spread expression.
pub open spec fn entry(s: Seq<char>, pos: int) -> Option<
    (ExpansionView<(ExpressionView, ExpressionView)>, int),
>
    decreases s.len() - pos, 3nat,
{
    if spread(s, pos) {
        match expression(s, pos + 2) {
            Some((e, p)) => Some((ExpansionView::Expanded(e), p)),
            None => None,
        }
    } else {
        match expression(s, pos) {
            Some((k, p)) => {
                let q = skip(s, p);
                if ahead(s, pos, q) {
                    match expression(s, q) {
                        Some((v, r)) => Some((ExpansionView::Unexpanded((k, v)), r)),
                        None => None,
                    }
                } else {
                    None
                }
            },
            None => None,
        }
    }
}

/// An application at `pos`: between round brackets, the expression of the
/// function and then its arguments.
pub open spec fn application(s: Seq<char>, pos: int) -> Option<(ExpressionView, int)>
    decreases s.len() - pos, 1nat,
{
    let p = skip(s, pos + 1);
    if at(s, pos, '(') && ahead(s, pos, p) {
        match expression(s, p) {
            Some((f, q)) => {
                let r = skip(s, q);
                if ahead(s, pos, r) {
                    let (a, t) = arguments(s, r);
                    if at(s, t, ')') {
                        Some((ExpressionView::App(Box::new(f), a), t + 1))
                    } else {
                        None
                    }
                } else {
                    None
                }
            },
            None => None,
        }
    } else {
        None
    }
}

/// The arguments from `pos` on: positional arguments, and behind a single
/// dot the keyword arguments.
pub open spec fn arguments(s: Seq<char>, pos: int) -> (ArgumentsView, int)
    decreases s.len() - pos, 5nat,
{
    let (ps, p) = elements(s, pos);
    let q = skip(s, p + 1);
    if separator(s, p) && ahead(s, pos, q) {
        let (ks, r) = keyword_elements(s, q);
        (ArgumentsView { positionals: ps, keywords: ks }, r)
    } else {
        (ArgumentsView { positionals: ps, keywords: Seq::empty() }, p)
    }
}

/// The keyword arguments from `pos` on, as many as there are, and where
/// they end.
pub open spec fn keyword_elements(s: Seq<char>, pos: int) -> (
    Seq<ExpansionView<KeywordArgumentView>>,
    int,
)
    decreases s.len() - pos, 4nat,
{
    match keyword_element(s, pos) {
        Some((e, p)) => {
            let q = skip(s, p);
            if ahead(s, pos, q) {
                let (es, r) = keyword_elements(s, q);
                (seq![e] + es, r)
            } else {
                (seq![e], q)
            }
        },
        None => (Seq::empty(), pos),
    }
}

/// A keyword argument at `pos`: a name and an expression, or a spread
/// expression.
pub open spec fn keyword_element(s: Seq<char>, pos: int) -> Option<
    (ExpansionView<KeywordArgumentView>, int),
>
    decreases s.len() - pos, 3nat,
{
    if spread(s, pos) {
        match expression(s, pos + 2) {
            Some((e, p)) => Some((ExpansionView::Expanded(e), p)),
            None => None,
        }
    } else {
        match name(s, pos) {
            Some(e) => {
                let q = skip(s, e);
                if ahead(s, pos, q) {
                    match expression(s, q) {
                        Some((v, r)) => Some(
                            (
                                ExpansionView::Unexpanded(
                                    KeywordArgumentView { name: s.subrange(pos, e), value: v },
                                ),
                                r,
                            ),
                        ),
                        None => None,
                    }
                } else {
                    None
                }
            },
            None => None,
        }
    }
}

/// Between round brackets at `pos`, a name and an expression, with `word`
/// in front of them if it is not empty: a variable definition with `let`,
/// an optional parameter with no word.
pub open spec fn binding(s: Seq<char>, pos: int, word: Seq<char>) -> Option<
    (Seq<char>, ExpressionView, int),
> {
    let inside = skip(s, pos + 1);
    let p = if word.len() == 0 {
        Some(inside)
    } else {
        match keyword(s, inside, word) {
            Some(e) => Some(skip(s, e)),
            None => None,
        }
    };
    if at(s, pos, '(') && p is Some {
        match name(s, p->0) {
            Some(e) => match expression(s, skip(s, e)) {
                Some((v, q)) => if at(s, skip(s, q), ')') {
                    Some((s.subrange(p->0, e), v, skip(s, q) + 1))
                } else {
                    None
                },
                None => None,
            },
            None => None,
        }
    } else {
        None
    }
}

/// An optional parameter at `pos`: a name and the expression of its
/// default, between round brackets.
pub open spec fn optional_parameter(s: Seq<char>, pos: int) -> Option<(OptionalParameterView, int)> {
    match binding(s, pos, Seq::empty()) {
        Some((n, v, e)) => Some((OptionalParameterView { name: n, default: v }, e)),
        None => None,
    }
}

/// A variable definition at `pos`: `let`, a name and an expression,
/// between round brackets.
pub open spec fn let_variable(s: Seq<char>, pos: int) -> Option<(LetVariableView, int)> {
    match binding(s, pos, "let"@) {
        Some((n, v, e)) => Some((LetVariableView { name: n, value: v }, e)),
        None => None,
    }
}

/// The names from `pos` on, as many as there are, and where they end.
pub open spec fn names(s: Seq<char>, pos: int) -> (Seq<Seq<char>>, int)
    decreases s.len() - pos,
{
    match name(s, pos) {
        Some(e) => {
            let q = skip(s, e);
            if ahead(s, pos, q) {
                let (ns, r) = names(s, q);
                (seq![s.subrange(pos, e)] + ns, r)
            } else {
                (seq![s.subrange(pos, e)], q)
            }
        },
        None => (Seq::empty(), pos),
    }
}

/// The optional parameters from `pos` on, as many as there are, and where
/// they end.
pub open spec fn optionals(s: Seq<char>, pos: int) -> (Seq<OptionalParameterView>, int)
    decreases s.len() - pos,
{
    match optional_parameter(s, pos) {
        Some((o, p)) => {
            let q = skip(s, p);
            if ahead(s, pos, q) {
                let (os, r) = optionals(s, q);
                (seq![o] + os, r)
            } else {
                (seq![o], q)
            }
        },
        None => (Seq::empty(), pos),
    }
}

/// One half of a signature from `pos` on: names of required parameters,
/// then optional parameters, then the name of a rest parameter behind two
/// dots. Each part may be missing.
pub open spec fn half_signature(s: Seq<char>, pos: int) -> (HalfSignatureView, int) {
    let (ns, p) = names(s, pos);
    let (os, q) = optionals(s, p);
    if spread(s, q) && name(s, q + 2) is Some {
        (
            HalfSignatureView {
                requireds: ns,
                optionals: os,
                rest: s.subrange(q + 2, name(s, q + 2)->0),
            },
            skip(s, name(s, q + 2)->0),
        )
    } else {
        (HalfSignatureView { requireds: ns, optionals: os, rest: Seq::empty() }, q)
    }
}

/// A signature from `pos` on: the half of the positional parameters, and
/// behind a single dot the half of the keyword parameters.
pub open spec fn signature(s: Seq<char>, pos: int) -> (SignatureView, int) {
    let (h, p) = half_signature(s, pos);
    if separator(s, p) {
        let (k, q) = half_signature(s, skip(s, p + 1));
        (SignatureView { positionals: h, keywords: k }, q)
    } else {
        (
            SignatureView {
                positionals: h,
                keywords: HalfSignatureView {
                    requireds: Seq::empty(),
                    optionals: Seq::empty(),
                    rest: Seq::empty(),
                },
            },
            p,
        )
    }
}

/// A function definition at `pos`: between round brackets, `def`, then
/// between round brackets the name and the signature, then inner
/// statements, then the expression of the body.
pub open spec fn def_function(s: Seq<char>, pos: int) -> Option<(DefFunctionView, int)>
    decreases s.len() - pos, 1nat,
{
    match keyword(s, skip(s, pos + 1), "def"@) {
        Some(e) => {
            let p = skip(s, e);
            match name(s, skip(s, p + 1)) {
                Some(n) => {
                    let (sig, q) = signature(s, skip(s, n));
                    let r = skip(s, q + 1);
                    if at(s, pos, '(') && at(s, p, '(') && at(s, q, ')') && ahead(s, pos, r) {
                        let (inner, t) = inner_statements(s, r);
                        match expression(s, t) {
                            Some((b, u)) => if at(s, skip(s, u), ')') {
                                Some(
                                    (
                                        DefFunctionView {
                                            name: s.subrange(skip(s, p + 1), n),
                                            signature: sig,
                                            inner_statements: inner,
                                            body: b,
                                        },
                                        skip(s, u) + 1,
                                    ),
                                )
                            } else {
                                None
                            },
                            None => None,
                        }
                    } else {
                        None
                    }
                },
                None => None,
            }
        },
        None => None,
    }
}

/// An inner statement at `pos`: a function definition or a variable
/// definition.
pub open spec fn inner_statement(s: Seq<char>, pos: int) -> Option<(InnerStatementView, int)>
    decreases s.len() - pos, 2nat,
{
    match def_function(s, pos) {
        Some((d, p)) => Some((InnerStatementView::DefFunction(d), p)),
        None => match let_variable(s, pos) {
            Some((l, p)) => Some((InnerStatementView::LetVariable(l), p)),
            None => None,
        },
    }
}

/// The inner statements from `pos` on, as many as there are, and where they
/// end.
pub open spec fn inner_statements(s: Seq<char>, pos: int) -> (Seq<InnerStatementView>, int)
    decreases s.len() - pos, 3nat,
{
    match inner_statement(s, pos) {
        Some((i, p)) => {
            let q = skip(s, p);
            if ahead(s, pos, q) {
                let (is, r) = inner_statements(s, q);
                (seq![i] + is, r)
            } else {
                (seq![i], q)
            }
        },
        None => (Seq::empty(), pos),
    }
}

/// An effect at `pos`: an expression, spread if two dots stand in front of
/// it.
pub open spec fn effect(s: Seq<char>, pos: int) -> Option<(EffectView, int)> {
    if spread(s, pos) {
        match expression(s, pos + 2) {
            Some((e, p)) => Some((EffectView { value: e, expanded: true }, p)),
            None => None,
        }
    } else {
        match expression(s, pos) {
            Some((e, p)) => Some((EffectView { value: e, expanded: false }, p)),
            None => None,
        }
    }
}

/// A statement at `pos`: a function definition, a variable definition or
/// an effect, tried in this order.
pub open spec fn statement(s: Seq<char>, pos: int) -> Option<(StatementView, int)> {
    match inner_statement(s, pos) {
        Some((InnerStatementView::DefFunction(d), p)) => Some((StatementView::DefFunction(d), p)),
        Some((InnerStatementView::LetVariable(l), p)) => Some((StatementView::LetVariable(l), p)),
        None => match effect(s, pos) {
            Some((e, p)) => Some((StatementView::Effect(e), p)),
            None => None,
        },
    }
}

/// An inner statement at `pos`, as a statement.
pub open spec fn top_inner_statement(s: Seq<char>, pos: int) -> Option<(StatementView, int)> {
    match inner_statement(s, pos) {
        Some((InnerStatementView::DefFunction(d), p)) => Some((StatementView::DefFunction(d), p)),
        Some((InnerStatementView::LetVariable(l), p)) => Some((StatementView::LetVariable(l), p)),
        None => None,
    }
}

/// An import at `pos`: between round brackets, `import` and a string. The
/// name of the module is what stands between the quotes.
pub open spec fn import(s: Seq<char>, pos: int) -> Option<(Seq<char>, int)> {
    match keyword(s, skip(s, pos + 1), "import"@) {
        Some(e) => match string(s, skip(s, e)) {
            Some(q) => if at(s, pos, '(') && at(s, skip(s, q), ')') {
                Some((s.subrange(skip(s, e) + 1, q - 1), skip(s, q) + 1))
            } else {
                None
            },
            None => None,
        },
        None => None,
    }
}

/// The imports and statements from `pos` on, as many as there are, and
/// where they end. In a main module a statement may be an effect; in
/// another module only definitions are statements.
pub open spec fn items(s: Seq<char>, pos: int, main: bool) -> (
    Seq<Seq<char>>,
    Seq<StatementView>,
    int,
)
    decreases s.len() - pos,
{
    match import(s, pos) {
        Some((n, p)) => {
            let q = skip(s, p);
            if ahead(s, pos, q) {
                let (is, ss, r) = items(s, q, main);
                (seq![n] + is, ss, r)
            } else {
                (seq![n], Seq::empty(), q)
            }
        },
        None => match (if main {
            statement(s, pos)
        } else {
            top_inner_statement(s, pos)
        }) {
            Some((st, p)) => {
                let q = skip(s, p);
                if ahead(s, pos, q) {
                    let (is, ss, r) = items(s, q, main);
                    (is, seq![st] + ss, r)
                } else {
                    (Seq::empty(), seq![st], q)
                }
            },
            None => (Seq::empty(), Seq::empty(), pos),
        },
    }
}

/// The module that the text `s` is, or the place where the text stops being
/// one: a module is imports and statements and nothing else but whitespace
/// and comments.
pub open spec fn module(s: Seq<char>, main: bool) -> Result<ModuleView, int> {
    let (is, ss, p) = items(s, skip(s, 0), main);
    if p == s.len() {
        Ok(ModuleView { imports: is, statements: ss })
    } else {
        Err(p)
    }
}

/// Where the anonymous function at `pos` ends: between round brackets, a
/// backslash, a signature between round brackets, and an expression.
pub open spec fn anonymous_function(s: Seq<char>, pos: int) -> Option<int> {
    let p = skip(s, pos + 1);
    let q = skip(s, p + 1);
    let (sig, r) = signature(s, skip(s, q + 1));
    if at(s, pos, '(') && at(s, p, '\\') && at(s, q, '(') && at(s, r, ')') {
        match expression(s, skip(s, r + 1)) {
            Some((b, t)) => if at(s, skip(s, t), ')') {
                Some(skip(s, t) + 1)
            } else {
                None
            },
            None => None,
        }
    } else {
        None
    }
}

/// How many cases stand from `pos` on, each a pattern and an expression,
/// and where they end.
pub open spec fn cases(s: Seq<char>, pos: int) -> (nat, int)
    decreases s.len() - pos,
{
    match expression(s, pos) {
        Some((k, p)) => match expression(s, skip(s, p)) {
            Some((v, q)) => {
                let r = skip(s, q);
                if ahead(s, pos, r) {
                    (1 + cases(s, r).0, cases(s, r).1)
                } else {
                    (1, r)
                }
            },
            None => (0, pos),
        },
        None => (0, pos),
    }
}

/// Where the match expression at `pos` ends: between round brackets,
/// `match`, an expression, and one or more cases.
pub open spec fn match_expression(s: Seq<char>, pos: int) -> Option<int> {
    match keyword(s, skip(s, pos + 1), "match"@) {
        Some(e) => match expression(s, skip(s, e)) {
            Some((v, p)) => {
                let (n, q) = cases(s, skip(s, p));
                if at(s, pos, '(') && n > 0 && at(s, q, ')') {
                    Some(q + 1)
                } else {
                    None
                }
            },
            None => None,
        },
        None => None,
    }
}

} // verus!
