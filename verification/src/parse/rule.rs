//! Holding a text against a single rule of the grammar.

use vstd::prelude::*;
use crate::parse::grammar;
use crate::parse::lexical;
use crate::parse::lexical::{is_at, match_keyword, match_name, match_number, match_string, skip_blank};
use crate::parse::parser::{
    application, def_function, dictionary, effect, expression, import, inner_statement,
    let_variable, list, main_module, signature, statement, sub_module,
};
use crate::parse::text::characters;

verus! {

/// The rules of the grammar that a text can be held against.
#[derive(Clone, Copy, Debug, PartialEq, Eq)]
pub enum Rule {
    Name,
    Boolean,
    Nil,
    Number,
    String,
    List,
    Dictionary,
    Application,
    Expression,
    AnonymousFunction,
    MatchExpression,
    Signature,
    DefFunction,
    LetVariable,
    Import,
    Effect,
    Statement,
    InnerStatement,
    MainModule,
    SubModule,
}

/// Where what `o` found ends, if it found anything.
pub open spec fn end_of<T>(o: Option<(T, int)>) -> Option<int> {
    match o {
        Some((_, e)) => Some(e),
        None => None,
    }
}

/// How far from its start the text `s` is of the rule `rule`. A module rule
/// takes the whole text or nothing; any other rule takes what it can from
/// the start and lets the rest stand.
pub open spec fn recognize(rule: Rule, s: Seq<char>) -> Option<int> {
    match rule {
        Rule::Name => lexical::name(s, 0),
        Rule::Boolean => match lexical::keyword(s, 0, "true"@) {
            Some(e) => Some(e),
            None => lexical::keyword(s, 0, "false"@),
        },
        Rule::Nil => lexical::keyword(s, 0, "nil"@),
        Rule::Number => lexical::number(s, 0),
        Rule::String => lexical::string(s, 0),
        Rule::List => end_of(grammar::list(s, 0)),
        Rule::Dictionary => end_of(grammar::dictionary(s, 0)),
        Rule::Application => end_of(grammar::application(s, 0)),
        Rule::Expression => end_of(grammar::expression(s, 0)),
        Rule::AnonymousFunction => grammar::anonymous_function(s, 0),
        Rule::MatchExpression => grammar::match_expression(s, 0),
        Rule::Signature => Some(grammar::signature(s, 0).1),
        Rule::DefFunction => end_of(grammar::def_function(s, 0)),
        Rule::LetVariable => end_of(grammar::let_variable(s, 0)),
        Rule::Import => end_of(grammar::import(s, 0)),
        Rule::Effect => end_of(grammar::effect(s, 0)),
        Rule::Statement => end_of(grammar::statement(s, 0)),
        Rule::InnerStatement => end_of(grammar::inner_statement(s, 0)),
        Rule::MainModule => if grammar::module(s, true) is Ok {
            Some(s.len() as int)
        } else {
            None
        },
        Rule::SubModule => if grammar::module(s, false) is Ok {
            Some(s.len() as int)
        } else {
            None
        },
    }
}

/// Where the anonymous function at `pos` ends.
pub fn anonymous_function(s: &[char], pos: usize) -> (r: Option<usize>)
    requires
        pos <= s@.len(),
    ensures
        match r {
            Some(e) => grammar::anonymous_function(s@, pos as int) == Some(e as int) && pos < e
                <= s@.len(),
            None => grammar::anonymous_function(s@, pos as int) is None,
        },
{
    let _len: usize = s.len();
    if !is_at(s, pos, '(') {
        return None;
    }
    let p = skip_blank(s, pos + 1);
    if !is_at(s, p, '\\') {
        return None;
    }
    let q = skip_blank(s, p + 1);
    if !is_at(s, q, '(') {
        return None;
    }
    let (_sig, r) = signature(s, skip_blank(s, q + 1));
    if !is_at(s, r, ')') {
        return None;
    }
    match expression(s, skip_blank(s, r + 1)) {
        Some((_b, t)) => {
            let u = skip_blank(s, t);
            if is_at(s, u, ')') {
                Some(u + 1)
            } else {
                None
            }
        },
        None => None,
    }
}

/// How many cases stand from `pos` on, held at the largest `usize`, and
/// where they end.
fn cases(s: &[char], pos: usize) -> (r: (bool, usize))
    requires
        pos <= s@.len(),
    ensures
        r.0 == (grammar::cases(s@, pos as int).0 > 0),
        r.1 == grammar::cases(s@, pos as int).1,
        pos <= r.1 <= s@.len(),
{
    let mut any: bool = false;
    let mut cur: usize = pos;
    loop
        invariant
            pos <= cur <= s@.len(),
            grammar::cases(s@, pos as int).1 == grammar::cases(s@, cur as int).1,
            (grammar::cases(s@, pos as int).0 > 0) == (any || grammar::cases(s@, cur as int).0 > 0),
        decreases s@.len() - cur,
    {
        match expression(s, cur) {
            None => {
                return (any, cur);
            },
            Some((_k, p)) => match expression(s, skip_blank(s, p)) {
                None => {
                    return (any, cur);
                },
                Some((_v, q)) => {
                    any = true;
                    cur = skip_blank(s, q);
                },
            },
        }
    }
}

/// Where the match expression at `pos` ends.
pub fn match_expression(s: &[char], pos: usize) -> (r: Option<usize>)
    requires
        pos <= s@.len(),
    ensures
        match r {
            Some(e) => grammar::match_expression(s@, pos as int) == Some(e as int) && pos < e
                <= s@.len(),
            None => grammar::match_expression(s@, pos as int) is None,
        },
{
    let _len: usize = s.len();
    if !is_at(s, pos, '(') {
        return None;
    }
    let e = match match_keyword(s, skip_blank(s, pos + 1), "match") {
        Some(e) => e,
        None => {
            return None;
        },
    };
    match expression(s, skip_blank(s, e)) {
        Some((_v, p)) => {
            let (any, q) = cases(s, skip_blank(s, p));
            if any && is_at(s, q, ')') {
                Some(q + 1)
            } else {
                None
            }
        },
        None => None,
    }
}

/// Where what `o` found ends, if it found anything.
fn end<T>(o: Option<(T, usize)>) -> (r: Option<usize>)
    ensures
        r == match o {
            Some((_, e)) => Some(e),
            None => None,
        },
{
    match o {
        Some((_, e)) => Some(e),
        None => None,
    }
}

/// How many characters of the text `s`, from its start, are of the rule
/// `rule`; nothing if the text does not start with what the rule describes.
pub fn parse(rule: Rule, s: &str) -> (r: Option<usize>)
    ensures
        match r {
            Some(e) => recognize(rule, s@) == Some(e as int),
            None => recognize(rule, s@) is None,
        },
{
    let cs = characters(s);
    let t = cs.as_slice();
    match rule {
        Rule::Name => match_name(t, 0),
        Rule::Boolean => match match_keyword(t, 0, "true") {
            Some(e) => Some(e),
            None => match_keyword(t, 0, "false"),
        },
        Rule::Nil => match_keyword(t, 0, "nil"),
        Rule::Number => match_number(t, 0),
        Rule::String => match_string(t, 0),
        Rule::List => end(list(t, 0)),
        Rule::Dictionary => end(dictionary(t, 0)),
        Rule::Application => end(application(t, 0)),
        Rule::Expression => end(expression(t, 0)),
        Rule::AnonymousFunction => anonymous_function(t, 0),
        Rule::MatchExpression => match_expression(t, 0),
        Rule::Signature => Some(signature(t, 0).1),
        Rule::DefFunction => end(def_function(t, 0)),
        Rule::LetVariable => end(let_variable(t, 0)),
        Rule::Import => end(import(t, 0)),
        Rule::Effect => end(effect(t, 0)),
        Rule::Statement => end(statement(t, 0, true)),
        Rule::InnerStatement => end(inner_statement(t, 0)),
        Rule::MainModule => match main_module(s) {
            Ok(_) => Some(t.len()),
            Err(_) => None,
        },
        Rule::SubModule => match sub_module(s) {
            Ok(_) => Some(t.len()),
            Err(_) => None,
        },
    }
}

} // verus!
