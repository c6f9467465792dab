//! Values: normal forms and calls that have not run.

use std::sync::Arc;
use vstd::prelude::*;
use crate::runtime::dictionary::Dictionary;
use crate::runtime::number::Number;
use crate::runtime::signature::Signature;

verus! {

/// `Arc::clone`: another handle to the same allocation, hence to an equal
/// value.
#[verifier::external_body]
pub(crate) fn share<T>(a: &Arc<T>) -> (r: Arc<T>)
    ensures
        r == *a,
{
    Arc::clone(a)
}

/// A persistent list: empty, or a first element in front of the rest.
#[derive(Debug)]
pub enum List {
    Empty,
    Cons(Arc<Cell>),
}

/// One cell of a list. The tail is a value that forces to a list, so a list
/// can end in a computation that has not run yet.
#[derive(Debug)]
pub struct Cell {
    pub head: Value,
    pub tail: Value,
}

/// The operations that the runtime itself provides as functions.
#[derive(Clone, Copy, Debug)]
pub enum Native {
    /// All positional arguments as one list.
    List,
    /// Conditions and results in turn, then the result if no condition held.
    If,
    /// The first element of a list.
    First,
    /// A list without its first element.
    Rest,
    /// Two lists one after the other, or two dictionaries laid over each
    /// other.
    Merge,
    /// A dictionary with one more entry.
    Insert,
}

/// A function value: an operation of the runtime, or a function that was
/// defined. A function is made once and stays as it is.
#[derive(Debug)]
pub enum Function {
    Native(Native),
    Closure(Arc<Closure>),
}

/// A function that was defined: its parameters and the expression of its
/// body. The values that the body took from its surroundings stand in it as
/// constants. The identity tells the function apart from every other one.
#[derive(Debug)]
pub struct Closure {
    pub identity: u64,
    pub signature: Signature,
    pub body: Expr,
}

/// An expression over the parameters of a function.
#[derive(Debug)]
pub enum Expr {
    /// A value that is the same in every call.
    Constant(Value),
    /// The value that is bound to the parameter at this place among the
    /// parameters that are bound so far. A place where no parameter stands
    /// means nil.
    Parameter(usize),
    /// A call.
    Call(Arc<Call>),
}

/// A call in the body of a function: the expressions of the function and of
/// its arguments.
#[derive(Debug)]
pub struct Call {
    pub function: Expr,
    pub positionals: Vec<PositionalExpr>,
    pub keywords: Vec<KeywordExpr>,
    pub dictionaries: Vec<Expr>,
}

/// The expression of a positional argument, spread or plain.
#[derive(Debug)]
pub struct PositionalExpr {
    pub value: Expr,
    pub expanded: bool,
}

/// The expression of a keyword argument.
#[derive(Debug)]
pub struct KeywordExpr {
    pub name: String,
    pub value: Expr,
}

/// A fully evaluated value.
#[derive(Debug)]
pub enum Normal {
    Nil,
    Number(Number),
    Boolean(bool),
    String(String),
    List(List),
    Dictionary(Dictionary),
    Function(Function),
}

/// The universal handle: a normal form, or a computation that yields one.
#[derive(Debug)]
pub enum Value {
    Normal(Normal),
    Thunk(Arc<Thunk>),
}

/// A call that has not run: the function and the arguments it was given.
#[derive(Debug)]
pub struct Thunk {
    pub function: Value,
    pub arguments: Frozen,
}

/// A positional argument at a call site, spread (`expanded`) or plain.
#[derive(Debug)]
pub struct PositionalArgument {
    pub value: Value,
    pub expanded: bool,
}

/// A named argument at a call site.
#[derive(Debug)]
pub struct KeywordArgument {
    pub name: String,
    pub value: Value,
}

/// Values in order, as a thunk keeps them.
#[derive(Debug)]
pub enum Values {
    End,
    More(Arc<ValueLink>),
}

#[derive(Debug)]
pub struct ValueLink {
    pub value: Value,
    pub next: Values,
}

/// Keyword arguments in order, as a thunk keeps them.
#[derive(Debug)]
pub enum Keywords {
    End,
    More(Arc<KeywordLink>),
}

#[derive(Debug)]
pub struct KeywordLink {
    pub argument: KeywordArgument,
    pub next: Keywords,
}

/// An argument bundle at rest inside a thunk. It keeps no more inline than a
/// bundle in use has room for.
#[derive(Debug)]
pub struct Frozen {
    pub(crate) positionals: Values,
    pub(crate) expanded_list: Option<Value>,
    pub(crate) keywords: Keywords,
    pub(crate) expanded_dict: Option<Value>,
}

/// What an argument bundle holds: the inline positional values in order, the
/// value of the overflow list if there is one, the inline keyword arguments
/// in order, and the value of the overflow dictionary if there is one.
pub struct ArgumentsView {
    pub positionals: Seq<Value>,
    pub expanded_list: Option<Value>,
    pub keywords: Seq<KeywordArgument>,
    pub expanded_dict: Option<Value>,
}

impl View for Values {
    type V = Seq<Value>;

    open spec fn view(&self) -> Seq<Value>
        decreases self,
    {
        match *self {
            Values::End => Seq::empty(),
            Values::More(l) => seq![l.value] + l.next.view(),
        }
    }
}

impl View for Keywords {
    type V = Seq<KeywordArgument>;

    open spec fn view(&self) -> Seq<KeywordArgument>
        decreases self,
    {
        match *self {
            Keywords::End => Seq::empty(),
            Keywords::More(l) => seq![l.argument] + l.next.view(),
        }
    }
}

impl Frozen {
    #[verifier::type_invariant]
    pub closed spec fn inv(self) -> bool {
        self.positionals@.len() <= 4 && self.keywords@.len() <= 4
    }
}

impl View for Frozen {
    type V = ArgumentsView;

    closed spec fn view(&self) -> ArgumentsView {
        ArgumentsView {
            positionals: self.positionals@,
            expanded_list: self.expanded_list,
            keywords: self.keywords@,
            expanded_dict: self.expanded_dict,
        }
    }
}

/// The chain that holds `vs` in order.
pub open spec fn values_of(vs: Seq<Value>) -> Values
    decreases vs.len(),
{
    if vs.len() == 0 {
        Values::End
    } else {
        Values::More(Arc::new(ValueLink { value: vs[0], next: values_of(vs.skip(1)) }))
    }
}

/// The chain that holds `ks` in order.
pub open spec fn keywords_of(ks: Seq<KeywordArgument>) -> Keywords
    decreases ks.len(),
{
    if ks.len() == 0 {
        Keywords::End
    } else {
        Keywords::More(Arc::new(KeywordLink { argument: ks[0], next: keywords_of(ks.skip(1)) }))
    }
}

/// The bundle at rest that holds what `a` holds.
pub closed spec fn frozen_of(a: ArgumentsView) -> Frozen {
    Frozen {
        positionals: values_of(a.positionals),
        expanded_list: a.expanded_list,
        keywords: keywords_of(a.keywords),
        expanded_dict: a.expanded_dict,
    }
}

pub proof fn lemma_values_of(vs: Seq<Value>)
    ensures
        values_of(vs)@ == vs,
    decreases vs.len(),
{
    if vs.len() > 0 {
        lemma_values_of(vs.skip(1));
        assert(seq![vs[0]] + vs.skip(1) =~= vs);
    } else {
        assert(values_of(vs)@ =~= vs);
    }
}

pub proof fn lemma_keywords_of(ks: Seq<KeywordArgument>)
    ensures
        keywords_of(ks)@ == ks,
    decreases ks.len(),
{
    if ks.len() > 0 {
        lemma_keywords_of(ks.skip(1));
        assert(seq![ks[0]] + ks.skip(1) =~= ks);
    } else {
        assert(keywords_of(ks)@ =~= ks);
    }
}

/// Freezing keeps what the bundle holds.
pub proof fn law_frozen_of(a: ArgumentsView)
    ensures
        frozen_of(a)@ == a,
{
    lemma_values_of(a.positionals);
    lemma_keywords_of(a.keywords);
}

/// The value that is the normal form `n`.
pub open spec fn normal(n: Normal) -> Value {
    Value::Normal(n)
}

/// The list value with `head` in front of `tail`.
pub open spec fn cons(head: Value, tail: Value) -> List {
    List::Cons(Arc::new(Cell { head, tail }))
}

/// The value of a native function.
pub open spec fn native(n: Native) -> Value {
    Value::Normal(Normal::Function(Function::Native(n)))
}

/// The call of `f` on the arguments `a`, not yet run.
pub open spec fn thunk(f: Value, a: ArgumentsView) -> Value {
    Value::Thunk(Arc::new(Thunk { function: f, arguments: frozen_of(a) }))
}

/// The call of `f` on the plain positional arguments `vs`, all kept inline,
/// not yet run.
pub open spec fn call(f: Value, vs: Seq<Value>) -> Value {
    thunk(
        f,
        ArgumentsView {
            positionals: vs,
            expanded_list: None,
            keywords: Seq::empty(),
            expanded_dict: None,
        },
    )
}

impl PositionalArgument {
    pub fn new(v: Value, e: bool) -> (r: PositionalArgument)
        ensures
            r.value == v,
            r.expanded == e,
    {
        PositionalArgument { value: v, expanded: e }
    }
}

impl KeywordArgument {
    pub fn new(s: String, v: Value) -> (r: KeywordArgument)
        ensures
            r.name == s,
            r.value == v,
    {
        KeywordArgument { name: s, value: v }
    }
}

impl Native {
    /// A number that tells the natives apart.
    pub open spec fn index(self) -> int {
        match self {
            Native::List => 0,
            Native::If => 1,
            Native::First => 2,
            Native::Rest => 3,
            Native::Merge => 4,
            Native::Insert => 5,
        }
    }

    fn ordinal(&self) -> (r: u8)
        ensures
            r == self.index(),
    {
        match self {
            Native::List => 0,
            Native::If => 1,
            Native::First => 2,
            Native::Rest => 3,
            Native::Merge => 4,
            Native::Insert => 5,
        }
    }

    pub fn same(&self, other: &Native) -> (r: bool)
        ensures
            r == (*self == *other),
    {
        self.ordinal() == other.ordinal()
    }
}

/// Whether two functions are the same function: the same operation of the
/// runtime, or defined functions of one identity. What the functions do is
/// not compared.
pub open spec fn same_function(f: Function, g: Function) -> bool {
    match f {
        Function::Native(a) => match g {
            Function::Native(b) => a == b,
            Function::Closure(_) => false,
        },
        Function::Closure(c) => match g {
            Function::Native(_) => false,
            Function::Closure(d) => c.identity == d.identity,
        },
    }
}

impl Function {
    /// Functions are equal only when they are the same function.
    pub fn same(&self, other: &Function) -> (r: bool)
        ensures
            r == same_function(*self, *other),
    {
        match self {
            Function::Native(a) => match other {
                Function::Native(b) => a.same(b),
                Function::Closure(_) => false,
            },
            Function::Closure(c) => match other {
                Function::Native(_) => false,
                Function::Closure(d) => c.identity == d.identity,
            },
        }
    }

    /// The function with the identity `identity`, the parameters
    /// `signature` and the body `body`.
    pub fn closure(identity: u64, signature: Signature, body: Expr) -> (r: Function)
        ensures
            r == Function::Closure(Arc::new(Closure { identity, signature, body })),
    {
        Function::Closure(Arc::new(Closure { identity, signature, body }))
    }
}

impl Clone for Function {
    fn clone(&self) -> (r: Function)
        ensures
            r == *self,
    {
        match self {
            Function::Native(n) => Function::Native(*n),
            Function::Closure(c) => Function::Closure(share(c)),
        }
    }
}

impl Clone for Expr {
    fn clone(&self) -> (r: Expr)
        ensures
            r == *self,
    {
        match self {
            Expr::Constant(v) => Expr::Constant(v.clone()),
            Expr::Parameter(i) => Expr::Parameter(*i),
            Expr::Call(c) => Expr::Call(share(c)),
        }
    }
}

impl Expr {
    /// The call of `function` on the given arguments.
    pub fn call(
        function: Expr,
        positionals: Vec<PositionalExpr>,
        keywords: Vec<KeywordExpr>,
        dictionaries: Vec<Expr>,
    ) -> (r: Expr)
        ensures
            r == Expr::Call(Arc::new(Call { function, positionals, keywords, dictionaries })),
    {
        Expr::Call(Arc::new(Call { function, positionals, keywords, dictionaries }))
    }
}

impl PositionalExpr {
    pub fn new(value: Expr, expanded: bool) -> (r: PositionalExpr)
        ensures
            r.value == value,
            r.expanded == expanded,
    {
        PositionalExpr { value, expanded }
    }
}

impl KeywordExpr {
    pub fn new(name: String, value: Expr) -> (r: KeywordExpr)
        ensures
            r.name == name,
            r.value == value,
    {
        KeywordExpr { name, value }
    }
}

impl Clone for List {
    fn clone(&self) -> (r: List)
        ensures
            r == *self,
    {
        match self {
            List::Empty => List::Empty,
            List::Cons(c) => List::Cons(share(c)),
        }
    }
}

impl Clone for Normal {
    fn clone(&self) -> (r: Normal)
        ensures
            r == *self,
    {
        match self {
            Normal::Nil => Normal::Nil,
            Normal::Number(x) => Normal::Number(x.clone()),
            Normal::Boolean(b) => Normal::Boolean(*b),
            Normal::String(s) => Normal::String(s.clone()),
            Normal::List(l) => Normal::List(l.clone()),
            Normal::Dictionary(d) => Normal::Dictionary(d.clone()),
            Normal::Function(f) => Normal::Function(f.clone()),
        }
    }
}

impl Clone for Value {
    fn clone(&self) -> (r: Value)
        ensures
            r == *self,
    {
        match self {
            Value::Normal(n) => Value::Normal(n.clone()),
            Value::Thunk(t) => Value::Thunk(share(t)),
        }
    }
}

impl Clone for PositionalArgument {
    fn clone(&self) -> (r: PositionalArgument)
        ensures
            r == *self,
    {
        PositionalArgument { value: self.value.clone(), expanded: self.expanded }
    }
}

impl Clone for KeywordArgument {
    fn clone(&self) -> (r: KeywordArgument)
        ensures
            r == *self,
    {
        KeywordArgument { name: self.name.clone(), value: self.value.clone() }
    }
}

impl Clone for Values {
    fn clone(&self) -> (r: Values)
        ensures
            r == *self,
    {
        match self {
            Values::End => Values::End,
            Values::More(l) => Values::More(share(l)),
        }
    }
}

impl Clone for Keywords {
    fn clone(&self) -> (r: Keywords)
        ensures
            r == *self,
    {
        match self {
            Keywords::End => Keywords::End,
            Keywords::More(l) => Keywords::More(share(l)),
        }
    }
}

impl Value {
    pub fn nil() -> (r: Value)
        ensures
            r == normal(Normal::Nil),
    {
        Value::Normal(Normal::Nil)
    }

    pub fn from_number(n: Number) -> (r: Value)
        ensures
            r == normal(Normal::Number(n)),
    {
        Value::Normal(Normal::Number(n))
    }

    pub fn from_boolean(b: bool) -> (r: Value)
        ensures
            r == normal(Normal::Boolean(b)),
    {
        Value::Normal(Normal::Boolean(b))
    }

    pub fn from_string(s: String) -> (r: Value)
        ensures
            r == normal(Normal::String(s)),
    {
        Value::Normal(Normal::String(s))
    }

    pub fn from_list(l: List) -> (r: Value)
        ensures
            r == normal(Normal::List(l)),
    {
        Value::Normal(Normal::List(l))
    }

    pub fn from_dictionary(d: Dictionary) -> (r: Value)
        ensures
            r == normal(Normal::Dictionary(d)),
    {
        Value::Normal(Normal::Dictionary(d))
    }

    pub fn from_function(f: Function) -> (r: Value)
        ensures
            r == normal(Normal::Function(f)),
    {
        Value::Normal(Normal::Function(f))
    }

    /// The call of `f` on up to four plain positional arguments, not yet
    /// run.
    pub(crate) fn call(f: Value, vs: Vec<Value>) -> (r: Value)
        requires
            vs@.len() <= 4,
        ensures
            r == call(f, vs@),
    {
        let positionals = Values::from_vec(vs);
        proof {
            lemma_values_of(vs@);
            assert(keywords_of(Seq::<KeywordArgument>::empty()) == Keywords::End);
        }
        Value::Thunk(
            Arc::new(
                Thunk {
                    function: f,
                    arguments: Frozen {
                        positionals,
                        expanded_list: None,
                        keywords: Keywords::End,
                        expanded_dict: None,
                    },
                },
            ),
        )
    }
}

impl Frozen {
    /// The bundle at rest that holds the given parts.
    pub fn new(
        ps: Vec<Value>,
        l: Option<Value>,
        ks: Vec<KeywordArgument>,
        d: Option<Value>,
    ) -> (r: Frozen)
        requires
            ps@.len() <= 4,
            ks@.len() <= 4,
        ensures
            r == frozen_of(
                ArgumentsView { positionals: ps@, expanded_list: l, keywords: ks@, expanded_dict: d },
            ),
            r@ == (ArgumentsView {
                positionals: ps@,
                expanded_list: l,
                keywords: ks@,
                expanded_dict: d,
            }),
    {
        proof {
            lemma_values_of(ps@);
            lemma_keywords_of(ks@);
        }
        Frozen {
            positionals: Values::from_vec(ps),
            expanded_list: l,
            keywords: Keywords::from_vec(ks),
            expanded_dict: d,
        }
    }

    /// The inline positional values, no more than four.
    pub fn positionals(&self) -> (r: Values)
        ensures
            r@ == self@.positionals,
            r@.len() <= 4,
    {
        proof {
            use_type_invariant(self);
        }
        self.positionals.clone()
    }

    /// The inline keyword arguments, no more than four.
    pub fn keywords(&self) -> (r: Keywords)
        ensures
            r@ == self@.keywords,
            r@.len() <= 4,
    {
        proof {
            use_type_invariant(self);
        }
        self.keywords.clone()
    }

    pub fn expanded_list(&self) -> (r: Option<Value>)
        ensures
            r == self@.expanded_list,
    {
        self.expanded_list.clone()
    }

    pub fn expanded_dict(&self) -> (r: Option<Value>)
        ensures
            r == self@.expanded_dict,
    {
        self.expanded_dict.clone()
    }
}

impl Values {
    /// The chain of the given values.
    pub fn from_vec(vs: Vec<Value>) -> (r: Values)
        ensures
            r == values_of(vs@),
    {
        let mut vs = vs;
        let ghost all = vs@;
        let mut chain: Values = Values::End;
        proof {
            assert(all.skip(all.len() as int) =~= Seq::<Value>::empty());
            assert(all.take(all.len() as int) =~= all);
        }
        while vs.len() > 0
            invariant
                vs@.len() <= all.len(),
                vs@ == all.take(vs@.len() as int),
                chain == values_of(all.skip(vs@.len() as int)),
            decreases vs.len(),
        {
            let ghost n = vs@.len() as int;
            let v = vs.pop().unwrap();
            proof {
                assert(all.skip(n - 1).skip(1) =~= all.skip(n));
                assert(vs@ =~= all.take(n - 1));
            }
            chain = Values::More(Arc::new(ValueLink { value: v, next: chain }));
        }
        proof {
            assert(all.skip(0) =~= all);
        }
        chain
    }
}

impl Keywords {
    /// The chain of the given keyword arguments.
    pub fn from_vec(ks: Vec<KeywordArgument>) -> (r: Keywords)
        ensures
            r == keywords_of(ks@),
    {
        let mut ks = ks;
        let ghost all = ks@;
        let mut chain: Keywords = Keywords::End;
        proof {
            assert(all.skip(all.len() as int) =~= Seq::<KeywordArgument>::empty());
            assert(all.take(all.len() as int) =~= all);
        }
        while ks.len() > 0
            invariant
                ks@.len() <= all.len(),
                ks@ == all.take(ks@.len() as int),
                chain == keywords_of(all.skip(ks@.len() as int)),
            decreases ks.len(),
        {
            let ghost n = ks@.len() as int;
            let k = ks.pop().unwrap();
            proof {
                assert(all.skip(n - 1).skip(1) =~= all.skip(n));
                assert(ks@ =~= all.take(n - 1));
            }
            chain = Keywords::More(Arc::new(KeywordLink { argument: k, next: chain }));
        }
        proof {
            assert(all.skip(0) =~= all);
        }
        chain
    }
}

} // verus!
