//! The parameters of a function.

use vstd::prelude::*;
use crate::runtime::value::Expr;

verus! {

/// A parameter that may be left out of a call, with the expression of the
/// value it then has. The expression may speak of the parameters that stand
/// in front of this one.
#[derive(Debug)]
pub struct OptionalParameter {
    pub name: String,
    pub default: Expr,
}

/// The parameters of a function: required, optional and rest parameters that
/// are given by position, and required, optional and rest parameters that are
/// given by name. An empty rest name declares no rest parameter.
#[derive(Debug)]
pub struct Signature {
    pub positionals: Vec<String>,
    pub optionals: Vec<OptionalParameter>,
    pub rest: String,
    pub keywords: Vec<String>,
    pub optional_keywords: Vec<OptionalParameter>,
    pub rest_keywords: String,
}

/// An optional parameter as a name and a default.
pub struct OptionalView {
    pub name: Seq<char>,
    pub default: Expr,
}

/// A signature as sequences of names and defaults.
pub struct SignatureView {
    pub positionals: Seq<Seq<char>>,
    pub optionals: Seq<OptionalView>,
    pub rest: Seq<char>,
    pub keywords: Seq<Seq<char>>,
    pub optional_keywords: Seq<OptionalView>,
    pub rest_keywords: Seq<char>,
}

impl View for OptionalParameter {
    type V = OptionalView;

    open spec fn view(&self) -> OptionalView {
        OptionalView { name: self.name@, default: self.default }
    }
}

/// The names `names` as texts.
pub open spec fn texts(names: Seq<String>) -> Seq<Seq<char>> {
    Seq::new(names.len(), |i: int| names[i]@)
}

/// The optional parameters `os` as names and defaults.
pub open spec fn optional_views(os: Seq<OptionalParameter>) -> Seq<OptionalView> {
    Seq::new(os.len(), |i: int| os[i]@)
}

impl View for Signature {
    type V = SignatureView;

    open spec fn view(&self) -> SignatureView {
        SignatureView {
            positionals: texts(self.positionals@),
            optionals: optional_views(self.optionals@),
            rest: self.rest@,
            keywords: texts(self.keywords@),
            optional_keywords: optional_views(self.optional_keywords@),
            rest_keywords: self.rest_keywords@,
        }
    }
}

impl SignatureView {
    /// How many parameters the signature declares, which is how many values
    /// binding it yields.
    pub open spec fn arity(self) -> nat {
        self.positionals.len() + self.optionals.len() + (if self.rest.len() > 0 {
            1nat
        } else {
            0nat
        }) + self.keywords.len() + self.optional_keywords.len() + (if self.rest_keywords.len() > 0 {
            1nat
        } else {
            0nat
        })
    }
}

impl OptionalParameter {
    pub fn new(name: String, default: Expr) -> (r: OptionalParameter)
        ensures
            r.name == name,
            r.default == default,
    {
        OptionalParameter { name, default }
    }
}

impl Signature {
    pub fn new(
        positionals: Vec<String>,
        optionals: Vec<OptionalParameter>,
        rest: String,
        keywords: Vec<String>,
        optional_keywords: Vec<OptionalParameter>,
        rest_keywords: String,
    ) -> (r: Signature)
        ensures
            r.positionals == positionals,
            r.optionals == optionals,
            r.rest == rest,
            r.keywords == keywords,
            r.optional_keywords == optional_keywords,
            r.rest_keywords == rest_keywords,
    {
        Signature { positionals, optionals, rest, keywords, optional_keywords, rest_keywords }
    }
}

} // verus!
