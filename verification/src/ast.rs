//! The syntax tree of a module, and for each of its types the view that the
//! grammar speaks of: texts as sequences of characters, parts as sequences.

use vstd::prelude::*;

verus! {

/// An element that is spread into its surroundings, or one that stands for
/// itself.
#[derive(Debug, PartialEq)]
pub enum Expansion<T> {
    Expanded(Expression),
    Unexpanded(T),
}

#[derive(Debug, PartialEq)]
pub enum Expression {
    App(Box<Expression>, Arguments),
    Boolean(bool),
    Dictionary(Vec<Expansion<(Expression, Expression)>>),
    List(Vec<Expansion<Expression>>),
    Name(String),
    Nil,
    /// A number as it is written.
    Number(String),
    String(String),
}

/// The arguments of an application.
#[derive(Debug, PartialEq)]
pub struct Arguments {
    pub positionals: Vec<Expansion<Expression>>,
    pub keywords: Vec<Expansion<KeywordArgument>>,
}

#[derive(Debug, PartialEq)]
pub struct KeywordArgument {
    pub name: String,
    pub value: Expression,
}

#[derive(Debug, PartialEq)]
pub struct OptionalParameter {
    pub name: String,
    pub default: Expression,
}

/// The parameters that are given by position, or those given by name. An
/// empty rest name declares no rest parameter.
#[derive(Debug, PartialEq)]
pub struct HalfSignature {
    pub requireds: Vec<String>,
    pub optionals: Vec<OptionalParameter>,
    pub rest: String,
}

#[derive(Debug, PartialEq)]
pub struct Signature {
    pub positionals: HalfSignature,
    pub keywords: HalfSignature,
}

#[derive(Debug, PartialEq)]
pub struct LetVariable {
    pub name: String,
    pub value: Expression,
}

#[derive(Debug, PartialEq)]
pub struct DefFunction {
    pub name: String,
    pub signature: Signature,
    pub inner_statements: Vec<InnerStatement>,
    pub body: Expression,
}

#[derive(Debug, PartialEq)]
pub enum InnerStatement {
    DefFunction(DefFunction),
    LetVariable(LetVariable),
}

/// An expression that is evaluated for what it does. A spread effect stands
/// for each element of the list it evaluates to.
#[derive(Debug, PartialEq)]
pub struct Effect {
    pub value: Expression,
    pub expanded: bool,
}

#[derive(Debug, PartialEq)]
pub struct Import {
    pub name: String,
}

#[derive(Debug, PartialEq)]
pub enum Statement {
    Effect(Effect),
    DefFunction(DefFunction),
    LetVariable(LetVariable),
}

#[derive(Debug, PartialEq)]
pub struct Module {
    pub imports: Vec<Import>,
    pub statements: Vec<Statement>,
}

pub enum ExpansionView<T> {
    Expanded(ExpressionView),
    Unexpanded(T),
}

pub enum ExpressionView {
    App(Box<ExpressionView>, ArgumentsView),
    Boolean(bool),
    Dictionary(Seq<ExpansionView<(ExpressionView, ExpressionView)>>),
    List(Seq<ExpansionView<ExpressionView>>),
    Name(Seq<char>),
    Nil,
    Number(Seq<char>),
    String(Seq<char>),
}

pub struct ArgumentsView {
    pub positionals: Seq<ExpansionView<ExpressionView>>,
    pub keywords: Seq<ExpansionView<KeywordArgumentView>>,
}

pub struct KeywordArgumentView {
    pub name: Seq<char>,
    pub value: ExpressionView,
}

pub struct OptionalParameterView {
    pub name: Seq<char>,
    pub default: ExpressionView,
}

pub struct HalfSignatureView {
    pub requireds: Seq<Seq<char>>,
    pub optionals: Seq<OptionalParameterView>,
    pub rest: Seq<char>,
}

pub struct SignatureView {
    pub positionals: HalfSignatureView,
    pub keywords: HalfSignatureView,
}

pub struct LetVariableView {
    pub name: Seq<char>,
    pub value: ExpressionView,
}

pub struct DefFunctionView {
    pub name: Seq<char>,
    pub signature: SignatureView,
    pub inner_statements: Seq<InnerStatementView>,
    pub body: ExpressionView,
}

pub enum InnerStatementView {
    DefFunction(DefFunctionView),
    LetVariable(LetVariableView),
}

pub struct EffectView {
    pub value: ExpressionView,
    pub expanded: bool,
}

pub enum StatementView {
    Effect(EffectView),
    DefFunction(DefFunctionView),
    LetVariable(LetVariableView),
}

pub struct ModuleView {
    pub imports: Seq<Seq<char>>,
    pub statements: Seq<StatementView>,
}

/// The expression `e` with its texts as sequences of characters and its
/// parts as sequences.
pub open spec fn expression_view(e: Expression) -> ExpressionView
    decreases e,
{
    match e {
        Expression::App(f, a) => ExpressionView::App(
            Box::new(expression_view(*f)),
            ArgumentsView {
                positionals: Seq::new(
                    a.positionals@.len(),
                    |i: int|
                        if 0 <= i < a.positionals@.len() {
                            match a.positionals@[i] {
                                Expansion::Expanded(x) => ExpansionView::Expanded(
                                    expression_view(x),
                                ),
                                Expansion::Unexpanded(x) => ExpansionView::Unexpanded(
                                    expression_view(x),
                                ),
                            }
                        } else {
                            arbitrary()
                        },
                ),
                keywords: Seq::new(
                    a.keywords@.len(),
                    |i: int|
                        if 0 <= i < a.keywords@.len() {
                            match a.keywords@[i] {
                                Expansion::Expanded(x) => ExpansionView::Expanded(
                                    expression_view(x),
                                ),
                                Expansion::Unexpanded(k) => ExpansionView::Unexpanded(
                                    KeywordArgumentView {
                                        name: k.name@,
                                        value: expression_view(k.value),
                                    },
                                ),
                            }
                        } else {
                            arbitrary()
                        },
                ),
            },
        ),
        Expression::Boolean(b) => ExpressionView::Boolean(b),
        Expression::Dictionary(es) => ExpressionView::Dictionary(
            Seq::new(
                es@.len(),
                |i: int|
                    if 0 <= i < es@.len() {
                        match es@[i] {
                            Expansion::Expanded(x) => ExpansionView::Expanded(expression_view(x)),
                            Expansion::Unexpanded(kv) => ExpansionView::Unexpanded(
                                (expression_view(kv.0), expression_view(kv.1)),
                            ),
                        }
                    } else {
                        arbitrary()
                    },
            ),
        ),
        Expression::List(es) => ExpressionView::List(
            Seq::new(
                es@.len(),
                |i: int|
                    if 0 <= i < es@.len() {
                        match es@[i] {
                            Expansion::Expanded(x) => ExpansionView::Expanded(expression_view(x)),
                            Expansion::Unexpanded(x) => ExpansionView::Unexpanded(
                                expression_view(x),
                            ),
                        }
                    } else {
                        arbitrary()
                    },
            ),
        ),
        Expression::Name(s) => ExpressionView::Name(s@),
        Expression::Nil => ExpressionView::Nil,
        Expression::Number(s) => ExpressionView::Number(s@),
        Expression::String(s) => ExpressionView::String(s@),
    }
}

impl View for Expression {
    type V = ExpressionView;

    open spec fn view(&self) -> ExpressionView {
        expression_view(*self)
    }
}

impl View for Expansion<Expression> {
    type V = ExpansionView<ExpressionView>;

    open spec fn view(&self) -> ExpansionView<ExpressionView> {
        match *self {
            Expansion::Expanded(x) => ExpansionView::Expanded(x@),
            Expansion::Unexpanded(x) => ExpansionView::Unexpanded(x@),
        }
    }
}

impl View for Expansion<(Expression, Expression)> {
    type V = ExpansionView<(ExpressionView, ExpressionView)>;

    open spec fn view(&self) -> ExpansionView<(ExpressionView, ExpressionView)> {
        match *self {
            Expansion::Expanded(x) => ExpansionView::Expanded(x@),
            Expansion::Unexpanded(kv) => ExpansionView::Unexpanded((kv.0@, kv.1@)),
        }
    }
}

impl View for Expansion<KeywordArgument> {
    type V = ExpansionView<KeywordArgumentView>;

    open spec fn view(&self) -> ExpansionView<KeywordArgumentView> {
        match *self {
            Expansion::Expanded(x) => ExpansionView::Expanded(x@),
            Expansion::Unexpanded(k) => ExpansionView::Unexpanded(k@),
        }
    }
}

impl View for KeywordArgument {
    type V = KeywordArgumentView;

    open spec fn view(&self) -> KeywordArgumentView {
        KeywordArgumentView { name: self.name@, value: self.value@ }
    }
}

impl View for Arguments {
    type V = ArgumentsView;

    open spec fn view(&self) -> ArgumentsView {
        ArgumentsView {
            positionals: Seq::new(self.positionals@.len(), |i: int| self.positionals@[i]@),
            keywords: Seq::new(self.keywords@.len(), |i: int| self.keywords@[i]@),
        }
    }
}

impl View for OptionalParameter {
    type V = OptionalParameterView;

    open spec fn view(&self) -> OptionalParameterView {
        OptionalParameterView { name: self.name@, default: self.default@ }
    }
}

impl View for HalfSignature {
    type V = HalfSignatureView;

    open spec fn view(&self) -> HalfSignatureView {
        HalfSignatureView {
            requireds: Seq::new(self.requireds@.len(), |i: int| self.requireds@[i]@),
            optionals: Seq::new(self.optionals@.len(), |i: int| self.optionals@[i]@),
            rest: self.rest@,
        }
    }
}

impl View for Signature {
    type V = SignatureView;

    open spec fn view(&self) -> SignatureView {
        SignatureView { positionals: self.positionals@, keywords: self.keywords@ }
    }
}

impl View for LetVariable {
    type V = LetVariableView;

    open spec fn view(&self) -> LetVariableView {
        LetVariableView { name: self.name@, value: self.value@ }
    }
}

/// The definition `d` with its texts as sequences of characters and its
/// parts as sequences.
pub open spec fn def_function_view(d: DefFunction) -> DefFunctionView
    decreases d,
{
    DefFunctionView {
        name: d.name@,
        signature: d.signature@,
        inner_statements: Seq::new(
            d.inner_statements@.len(),
            |i: int|
                if 0 <= i < d.inner_statements@.len() {
                    match d.inner_statements@[i] {
                        InnerStatement::DefFunction(f) => InnerStatementView::DefFunction(
                            def_function_view(f),
                        ),
                        InnerStatement::LetVariable(l) => InnerStatementView::LetVariable(l@),
                    }
                } else {
                    arbitrary()
                },
        ),
        body: d.body@,
    }
}

impl View for DefFunction {
    type V = DefFunctionView;

    open spec fn view(&self) -> DefFunctionView {
        def_function_view(*self)
    }
}

impl View for InnerStatement {
    type V = InnerStatementView;

    open spec fn view(&self) -> InnerStatementView {
        match *self {
            InnerStatement::DefFunction(f) => InnerStatementView::DefFunction(f@),
            InnerStatement::LetVariable(l) => InnerStatementView::LetVariable(l@),
        }
    }
}

impl View for Effect {
    type V = EffectView;

    open spec fn view(&self) -> EffectView {
        EffectView { value: self.value@, expanded: self.expanded }
    }
}

impl View for Statement {
    type V = StatementView;

    open spec fn view(&self) -> StatementView {
        match *self {
            Statement::Effect(e) => StatementView::Effect(e@),
            Statement::DefFunction(f) => StatementView::DefFunction(f@),
            Statement::LetVariable(l) => StatementView::LetVariable(l@),
        }
    }
}

/// The names of the modules that the imports name.
pub open spec fn import_names(is: Seq<Import>) -> Seq<Seq<char>> {
    Seq::new(is.len(), |i: int| is[i].name@)
}

impl View for Module {
    type V = ModuleView;

    open spec fn view(&self) -> ModuleView {
        ModuleView { imports: import_names(self.imports@), statements: views(self.statements@) }
    }
}

/// The views of the elements of a list, of the positional arguments of an
/// application, or of the elements of a dictionary.
pub open spec fn views<T: View>(es: Seq<T>) -> Seq<T::V> {
    Seq::new(es.len(), |i: int| es[i]@)
}

/// The view of a list is the list of the views of its elements; so for a
/// dictionary and for an application.
pub proof fn lemma_expression_view(e: Expression)
    ensures
        e matches Expression::List(es) ==> e@ == ExpressionView::List(views(es@)),
        e matches Expression::Dictionary(es) ==> e@ == ExpressionView::Dictionary(views(es@)),
        e matches Expression::App(f, a) ==> e@ == ExpressionView::App(
            Box::new(f@),
            ArgumentsView { positionals: views(a.positionals@), keywords: views(a.keywords@) },
        ),
{
    match e {
        Expression::List(es) => {
            assert(e@->List_0 =~= views(es@));
        },
        Expression::Dictionary(es) => {
            assert(e@->Dictionary_0 =~= views(es@));
        },
        Expression::App(f, a) => {
            assert(e@->App_1.positionals =~= views(a.positionals@));
            assert(e@->App_1.keywords =~= views(a.keywords@));
        },
        _ => {},
    }
}

/// The view of a definition has the views of its inner statements.
pub proof fn lemma_def_function_view(d: DefFunction)
    ensures
        d@ == (DefFunctionView {
            name: d.name@,
            signature: d.signature@,
            inner_statements: views(d.inner_statements@),
            body: d.body@,
        }),
{
    assert(d@.inner_statements =~= views(d.inner_statements@));
}

impl Arguments {
    pub fn new(
        positionals: Vec<Expansion<Expression>>,
        keywords: Vec<Expansion<KeywordArgument>>,
    ) -> (r: Arguments)
        ensures
            r.positionals == positionals,
            r.keywords == keywords,
    {
        Arguments { positionals, keywords }
    }
}

impl KeywordArgument {
    pub fn new(name: String, value: Expression) -> (r: KeywordArgument)
        ensures
            r.name == name,
            r.value == value,
    {
        KeywordArgument { name, value }
    }
}

impl OptionalParameter {
    pub fn new(name: String, default: Expression) -> (r: OptionalParameter)
        ensures
            r.name == name,
            r.default == default,
    {
        OptionalParameter { name, default }
    }
}

impl HalfSignature {
    pub fn new(requireds: Vec<String>, optionals: Vec<OptionalParameter>, rest: String) -> (r:
        HalfSignature)
        ensures
            r.requireds == requireds,
            r.optionals == optionals,
            r.rest == rest,
    {
        HalfSignature { requireds, optionals, rest }
    }
}

impl Default for HalfSignature {
    fn default() -> (r: HalfSignature)
        ensures
            r@ == (HalfSignatureView {
                requireds: Seq::empty(),
                optionals: Seq::empty(),
                rest: Seq::empty(),
            }),
    {
        let r = HalfSignature { requireds: Vec::new(), optionals: Vec::new(), rest: String::new() };
        proof {
            assert(r@.requireds =~= Seq::<Seq<char>>::empty());
            assert(r@.optionals =~= Seq::<OptionalParameterView>::empty());
        }
        r
    }
}

impl Signature {
    pub fn new(positionals: HalfSignature, keywords: HalfSignature) -> (r: Signature)
        ensures
            r.positionals == positionals,
            r.keywords == keywords,
    {
        Signature { positionals, keywords }
    }
}

impl Default for Signature {
    fn default() -> (r: Signature)
        ensures
            r.positionals@ == (HalfSignatureView {
                requireds: Seq::empty(),
                optionals: Seq::empty(),
                rest: Seq::empty(),
            }),
            r.keywords@ == r.positionals@,
    {
        Signature { positionals: HalfSignature::default(), keywords: HalfSignature::default() }
    }
}

impl LetVariable {
    pub fn new(name: String, value: Expression) -> (r: LetVariable)
        ensures
            r.name == name,
            r.value == value,
    {
        LetVariable { name, value }
    }
}

impl DefFunction {
    pub fn new(
        name: String,
        signature: Signature,
        inner_statements: Vec<InnerStatement>,
        body: Expression,
    ) -> (r: DefFunction)
        ensures
            r.name == name,
            r.signature == signature,
            r.inner_statements == inner_statements,
            r.body == body,
    {
        DefFunction { name, signature, inner_statements, body }
    }
}

impl Effect {
    pub fn new(value: Expression, expanded: bool) -> (r: Effect)
        ensures
            r.value == value,
            r.expanded == expanded,
    {
        Effect { value, expanded }
    }
}

impl Import {
    pub fn new(name: String) -> (r: Import)
        ensures
            r.name == name,
    {
        Import { name }
    }
}

impl Module {
    pub fn new(imports: Vec<Import>, statements: Vec<Statement>) -> (r: Module)
        ensures
            r.imports == imports,
            r.statements == statements,
    {
        Module { imports, statements }
    }
}

} // verus!
