//! From syntax trees to values.
//!
//! The compiler resolves names against an environment and number literals
//! against a table of numbers, and builds the calls that the runtime
//! evaluates later. It compiles effects of literals, names and lists; a
//! module that holds anything else is not accepted.

use vstd::prelude::*;
use crate::ast;
use crate::ast::{Expansion, Expression};
use crate::runtime::arguments::{new_arguments, Arguments};
use crate::runtime::number::Number;
use crate::runtime::value::{
    native, normal, thunk, KeywordArgument, Native, Normal, PositionalArgument, Value,
};

verus! {

/// A value that a module evaluates for what it does. A spread effect stands
/// for each element of the list it evaluates to.
#[derive(Debug)]
pub struct Effect {
    pub value: Value,
    pub expanded: bool,
}

impl Effect {
    pub fn new(value: Value, expanded: bool) -> (r: Effect)
        ensures
            r.value == value,
            r.expanded == expanded,
    {
        Effect { value, expanded }
    }
}

/// Why a module could not be compiled.
#[derive(Debug)]
pub struct CompileError {
    pub message: String,
}

/// Turns the expressions of a module into values. It holds the values that
/// names stand for, and the numbers that number literals stand for.
pub struct Compiler {
    environment: Vec<(String, Value)>,
    numbers: Vec<(String, Number)>,
}

/// The value that `name` stands for in `env`: that of the last definition of
/// the name.
pub open spec fn lookup(env: Seq<(String, Value)>, name: Seq<char>) -> Option<Value>
    decreases env.len(),
{
    if env.len() == 0 {
        None
    } else if env.last().0@ == name {
        Some(env.last().1)
    } else {
        lookup(env.drop_last(), name)
    }
}

/// The number that the literal `text` stands for in `nums`: that of the last
/// definition of the literal.
pub open spec fn lookup_number(nums: Seq<(String, Number)>, text: Seq<char>) -> Option<Number>
    decreases nums.len(),
{
    if nums.len() == 0 {
        None
    } else if nums.last().0@ == text {
        Some(nums.last().1)
    } else {
        lookup_number(nums.drop_last(), text)
    }
}

/// The expression inside an element of a list.
pub open spec fn inner(e: Expansion<Expression>) -> Expression {
    match e {
        Expansion::Expanded(x) => x,
        Expansion::Unexpanded(x) => x,
    }
}

/// Whether the expression `e` can be compiled: it is nil, a boolean, a
/// string, a number literal that stands for a number, a name that stands
/// for a value, or a list of such expressions.
pub open spec fn compilable(
    env: Seq<(String, Value)>,
    nums: Seq<(String, Number)>,
    e: Expression,
) -> bool
    decreases e,
{
    match e {
        Expression::Nil => true,
        Expression::Boolean(_) => true,
        Expression::String(_) => true,
        Expression::Number(t) => lookup_number(nums, t@) is Some,
        Expression::Name(n) => lookup(env, n@) is Some,
        Expression::List(es) => forall|i: int|
            0 <= i < es@.len() ==> compilable(env, nums, inner(#[trigger] es@[i])),
        Expression::App(_, _) => false,
        Expression::Dictionary(_) => false,
    }
}

/// The value of the expression `e`. A list is the call of `List` on its
/// elements, each spread or plain as it is written; the call is not run.
pub open spec fn compile_expression(
    env: Seq<(String, Value)>,
    nums: Seq<(String, Number)>,
    e: Expression,
) -> Value
    decreases e, 1nat,
{
    match e {
        Expression::Nil => normal(Normal::Nil),
        Expression::Boolean(b) => normal(Normal::Boolean(b)),
        Expression::String(s) => normal(Normal::String(s)),
        Expression::Number(t) => normal(Normal::Number(lookup_number(nums, t@)->0)),
        Expression::Name(n) => lookup(env, n@)->0,
        Expression::List(es) => thunk(
            native(Native::List),
            new_arguments(compile_elements(env, nums, e), Seq::empty(), Seq::empty()),
        ),
        _ => arbitrary(),
    }
}

/// The positional arguments that the elements of the list `e` compile to.
pub open spec fn compile_elements(
    env: Seq<(String, Value)>,
    nums: Seq<(String, Number)>,
    e: Expression,
) -> Seq<PositionalArgument>
    decreases e, 0nat,
{
    match e {
        Expression::List(es) => Seq::new(
            es@.len(),
            |i: int|
                if 0 <= i < es@.len() {
                    match es@[i] {
                        Expansion::Expanded(x) => PositionalArgument {
                            value: compile_expression(env, nums, x),
                            expanded: true,
                        },
                        Expansion::Unexpanded(x) => PositionalArgument {
                            value: compile_expression(env, nums, x),
                            expanded: false,
                        },
                    }
                } else {
                    arbitrary()
                },
        ),
        _ => Seq::empty(),
    }
}

/// Whether the statement `s` can be compiled: it is an effect whose
/// expression can be.
pub open spec fn compilable_statement(
    env: Seq<(String, Value)>,
    nums: Seq<(String, Number)>,
    s: ast::Statement,
) -> bool {
    match s {
        ast::Statement::Effect(e) => compilable(env, nums, e.value),
        _ => false,
    }
}

/// The effect that the statement `s` compiles to.
pub open spec fn compile_statement(
    env: Seq<(String, Value)>,
    nums: Seq<(String, Number)>,
    s: ast::Statement,
) -> Effect {
    match s {
        ast::Statement::Effect(e) => Effect {
            value: compile_expression(env, nums, e.value),
            expanded: e.expanded,
        },
        _ => arbitrary(),
    }
}

/// The number literals that compiling the expression `e` looks up, in the
/// order in which they are written.
pub open spec fn literals(e: Expression) -> Seq<Seq<char>>
    decreases e, 1nat, 0nat,
{
    match e {
        Expression::Number(t) => seq![t@],
        Expression::List(es) => literals_of(e, es@.len()),
        _ => Seq::empty(),
    }
}

/// The number literals in the first `n` elements of the list `e`.
pub open spec fn literals_of(e: Expression, n: nat) -> Seq<Seq<char>>
    decreases e, 0nat, n,
{
    match e {
        Expression::List(es) => if 0 < n <= es@.len() {
            literals_of(e, (n - 1) as nat) + literals(inner(es@[n - 1]))
        } else {
            Seq::empty()
        },
        _ => Seq::empty(),
    }
}

/// The number literals that compiling the first `n` statements looks up.
pub open spec fn module_literals(ss: Seq<ast::Statement>, n: nat) -> Seq<Seq<char>>
    decreases n,
{
    if 0 < n <= ss.len() {
        module_literals(ss, (n - 1) as nat) + match ss[n - 1] {
            ast::Statement::Effect(e) => literals(e.value),
            _ => Seq::empty(),
        }
    } else {
        Seq::empty()
    }
}

/// Appends the number literals of `e` to `out`.
fn collect_literals(e: &Expression, out: &mut Vec<String>)
    ensures
        crate::runtime::signature::texts(final(out)@) == crate::runtime::signature::texts(
            old(out)@,
        ) + literals(*e),
    decreases e,
{
    let ghost before = crate::runtime::signature::texts(out@);
    match e {
        Expression::Number(t) => {
            out.push(t.clone());
            proof {
                assert(crate::runtime::signature::texts(out@) =~= before + seq![t@]);
            }
        },
        Expression::List(es) => {
            let mut i: usize = 0;
            proof {
                assert(before + literals_of(*e, 0) =~= before);
            }
            while i < es.len()
                invariant
                    i <= es@.len(),
                    *e == Expression::List(*es),
                    crate::runtime::signature::texts(out@) == before + literals_of(*e, i as nat),
                decreases es@.len() - i,
            {
                proof {
                    vstd::std_specs::vec::axiom_vec_index_decreases(*es, i as int);
                    assert(e->List_0 == *es);
                }
                let ghost so_far = crate::runtime::signature::texts(out@);
                match &es[i] {
                    Expansion::Expanded(x) => collect_literals(x, out),
                    Expansion::Unexpanded(x) => collect_literals(x, out),
                }
                proof {
                    let more = literals(inner(es@[i as int]));
                    assert(before + (literals_of(*e, i as nat) + more) =~= so_far + more);
                }
                i = i + 1;
            }
        },
        _ => {
            proof {
                assert(before + Seq::<Seq<char>>::empty() =~= before);
            }
        },
    }
}

/// The number literals that compiling the module `m` looks up, in the order
/// in which they are written. A compiler in which each of them stands for a
/// number has all the numbers that the module needs.
pub fn number_literals(m: &ast::Module) -> (r: Vec<String>)
    ensures
        crate::runtime::signature::texts(r@) == module_literals(
            m.statements@,
            m.statements@.len(),
        ),
{
    let mut out: Vec<String> = Vec::new();
    let mut i: usize = 0;
    proof {
        assert(crate::runtime::signature::texts(out@) =~= Seq::<Seq<char>>::empty());
    }
    while i < m.statements.len()
        invariant
            i <= m.statements@.len(),
            crate::runtime::signature::texts(out@) == module_literals(m.statements@, i as nat),
        decreases m.statements@.len() - i,
    {
        let ghost so_far = crate::runtime::signature::texts(out@);
        match &m.statements[i] {
            ast::Statement::Effect(e) => {
                collect_literals(&e.value, &mut out);
            },
            _ => {
                proof {
                    assert(so_far + Seq::<Seq<char>>::empty() =~= so_far);
                }
            },
        }
        i = i + 1;
    }
    out
}

/// The names that every compiler starts with, and the functions they stand
/// for.
pub open spec fn builtins() -> Seq<(Seq<char>, Native)> {
    seq![
        ("if"@, Native::If),
        ("list"@, Native::List),
        ("first"@, Native::First),
        ("rest"@, Native::Rest),
        ("merge"@, Native::Merge),
        ("insert"@, Native::Insert),
    ]
}

impl Compiler {
    /// What names stand for.
    pub closed spec fn environment(&self) -> Seq<(String, Value)> {
        self.environment@
    }

    /// What number literals stand for.
    pub closed spec fn numbers(&self) -> Seq<(String, Number)> {
        self.numbers@
    }

    /// Whether the compiler can compile the module `m`: every statement is
    /// an effect of an expression that can be compiled.
    pub open spec fn can_compile(&self, m: ast::Module) -> bool {
        forall|i: int|
            0 <= i < m.statements@.len() ==> compilable_statement(
                self.environment(),
                self.numbers(),
                #[trigger] m.statements@[i],
            )
    }

    /// A compiler that knows the functions of the runtime by their names and
    /// no number.
    pub fn new() -> (r: Compiler)
        ensures
            r.numbers() == Seq::<(String, Number)>::empty(),
            r.environment().len() == builtins().len(),
            forall|i: int|
                0 <= i < builtins().len() ==> (#[trigger] r.environment()[i]).0@ == builtins()[i].0
                    && r.environment()[i].1 == native(builtins()[i].1),
    {
        let mut environment: Vec<(String, Value)> = Vec::new();
        environment.push((String::from_str("if"), Native::If.value()));
        environment.push((String::from_str("list"), Native::List.value()));
        environment.push((String::from_str("first"), Native::First.value()));
        environment.push((String::from_str("rest"), Native::Rest.value()));
        environment.push((String::from_str("merge"), Native::Merge.value()));
        environment.push((String::from_str("insert"), Native::Insert.value()));
        Compiler { environment, numbers: Vec::new() }
    }

    /// Lets `name` stand for `value` from now on.
    pub fn define(&mut self, name: String, value: Value)
        ensures
            final(self).environment() == old(self).environment().push((name, value)),
            final(self).numbers() == old(self).numbers(),
            lookup(final(self).environment(), name@) == Some(value),
    {
        self.environment.push((name, value));
        proof {
            assert(self.environment@.last() == (name, value));
        }
    }

    /// Lets the number literal `text` stand for `number` from now on.
    pub fn define_number(&mut self, text: String, number: Number)
        ensures
            final(self).numbers() == old(self).numbers().push((text, number)),
            final(self).environment() == old(self).environment(),
            lookup_number(final(self).numbers(), text@) == Some(number),
    {
        self.numbers.push((text, number));
        proof {
            assert(self.numbers@.last() == (text, number));
        }
    }

    /// The value that `name` stands for.
    pub fn resolve(&self, name: &str) -> (r: Option<Value>)
        ensures
            r == lookup(self.environment(), name@),
    {
        let wanted: String = String::from_str(name);
        let mut i: usize = self.environment.len();
        proof {
            assert(self.environment@.take(i as int) =~= self.environment@);
        }
        while i > 0
            invariant
                i <= self.environment@.len(),
                wanted@ == name@,
                lookup(self.environment@, name@) == lookup(
                    self.environment@.take(i as int),
                    name@,
                ),
            decreases i,
        {
            i = i - 1;
            proof {
                let head = self.environment@.take(i + 1);
                assert(head.last() == self.environment@[i as int]);
                assert(head.drop_last() =~= self.environment@.take(i as int));
            }
            if self.environment[i].0 == wanted {
                return Some(self.environment[i].1.clone());
            }
        }
        None
    }

    /// The number that the literal `text` stands for.
    pub fn resolve_number(&self, text: &str) -> (r: Option<Number>)
        ensures
            r == lookup_number(self.numbers(), text@),
    {
        let wanted: String = String::from_str(text);
        let mut i: usize = self.numbers.len();
        proof {
            assert(self.numbers@.take(i as int) =~= self.numbers@);
        }
        while i > 0
            invariant
                i <= self.numbers@.len(),
                wanted@ == text@,
                lookup_number(self.numbers@, text@) == lookup_number(
                    self.numbers@.take(i as int),
                    text@,
                ),
            decreases i,
        {
            i = i - 1;
            proof {
                let head = self.numbers@.take(i + 1);
                assert(head.last() == self.numbers@[i as int]);
                assert(head.drop_last() =~= self.numbers@.take(i as int));
            }
            if self.numbers[i].0 == wanted {
                return Some(self.numbers[i].1.clone());
            }
        }
        None
    }

    /// Whether the expression `e` can be compiled.
    pub fn accepts_expression(&self, e: &Expression) -> (r: bool)
        ensures
            r == compilable(self.environment(), self.numbers(), *e),
        decreases e,
    {
        match e {
            Expression::Nil => true,
            Expression::Boolean(_) => true,
            Expression::String(_) => true,
            Expression::Number(t) => self.resolve_number(t.as_str()).is_some(),
            Expression::Name(n) => self.resolve(n.as_str()).is_some(),
            Expression::List(es) => {
                let mut i: usize = 0;
                while i < es.len()
                    invariant
                        i <= es@.len(),
                        *e == Expression::List(*es),
                        forall|j: int|
                            0 <= j < i ==> compilable(
                                self.environment(),
                                self.numbers(),
                                inner(#[trigger] es@[j]),
                            ),
                    decreases es@.len() - i,
                {
                    proof {
                        vstd::std_specs::vec::axiom_vec_index_decreases(*es, i as int);
                        assert(e->List_0 == *es);
                    }
                    let ok = match &es[i] {
                        Expansion::Expanded(x) => self.accepts_expression(x),
                        Expansion::Unexpanded(x) => self.accepts_expression(x),
                    };
                    if !ok {
                        assert(!compilable(
                            self.environment(),
                            self.numbers(),
                            inner(es@[i as int]),
                        ));
                        return false;
                    }
                    i = i + 1;
                }
                true
            },
            Expression::App(_, _) => false,
            Expression::Dictionary(_) => false,
        }
    }

    /// Whether the module `m` can be compiled.
    pub fn accepts(&self, m: &ast::Module) -> (r: bool)
        ensures
            r == self.can_compile(*m),
    {
        let mut i: usize = 0;
        while i < m.statements.len()
            invariant
                i <= m.statements@.len(),
                forall|j: int|
                    0 <= j < i ==> compilable_statement(
                        self.environment(),
                        self.numbers(),
                        #[trigger] m.statements@[j],
                    ),
            decreases m.statements@.len() - i,
        {
            let ok = match &m.statements[i] {
                ast::Statement::Effect(e) => self.accepts_expression(&e.value),
                _ => false,
            };
            if !ok {
                return false;
            }
            i = i + 1;
        }
        true
    }

    /// The value of the expression `e`.
    fn compile_expression(&self, e: &Expression) -> (r: Value)
        requires
            compilable(self.environment(), self.numbers(), *e),
        ensures
            r == compile_expression(self.environment(), self.numbers(), *e),
        decreases e,
    {
        match e {
            Expression::Nil => Value::Normal(Normal::Nil),
            Expression::Boolean(b) => Value::Normal(Normal::Boolean(*b)),
            Expression::String(s) => Value::Normal(Normal::String(s.clone())),
            Expression::Number(t) => match self.resolve_number(t.as_str()) {
                Some(n) => Value::Normal(Normal::Number(n)),
                None => Value::Normal(Normal::Nil),
            },
            Expression::Name(n) => match self.resolve(n.as_str()) {
                Some(v) => v,
                None => Value::Normal(Normal::Nil),
            },
            Expression::List(es) => {
                let mut ps: Vec<PositionalArgument> = Vec::new();
                let ghost want = compile_elements(self.environment(), self.numbers(), *e);
                let mut i: usize = 0;
                while i < es.len()
                    invariant
                        i <= es@.len(),
                        compilable(self.environment(), self.numbers(), *e),
                        *e == Expression::List(*es),
                        want == compile_elements(self.environment(), self.numbers(), *e),
                        ps@ == want.take(i as int),
                    decreases es@.len() - i,
                {
                    assert(compilable(self.environment(), self.numbers(), inner(es@[i as int])));
                    let p = match &es[i] {
                        Expansion::Expanded(x) => PositionalArgument::new(
                            self.compile_expression(x),
                            true,
                        ),
                        Expansion::Unexpanded(x) => PositionalArgument::new(
                            self.compile_expression(x),
                            false,
                        ),
                    };
                    proof {
                        assert(want.take(i as int).push(want[i as int]) =~= want.take(i + 1));
                    }
                    ps.push(p);
                    i = i + 1;
                }
                proof {
                    assert(want.take(es@.len() as int) =~= want);
                }
                let ks: Vec<KeywordArgument> = Vec::new();
                let ds: Vec<Value> = Vec::new();
                Value::app(
                    Native::List.value(),
                    Arguments::new(ps.as_slice(), ks.as_slice(), ds.as_slice()),
                )
            },
            Expression::App(_, _) => Value::Normal(Normal::Nil),
            Expression::Dictionary(_) => Value::Normal(Normal::Nil),
        }
    }

    /// The effects of the module `m`, in the order of its statements. The
    /// compiler stays as it was.
    pub fn compile_module(&mut self, m: ast::Module) -> (r: Result<Vec<Effect>, CompileError>)
        requires
            old(self).can_compile(m),
        ensures
            final(self).environment() == old(self).environment(),
            final(self).numbers() == old(self).numbers(),
            r is Ok,
            r->Ok_0@.len() == m.statements@.len(),
            forall|i: int|
                0 <= i < m.statements@.len() ==> (#[trigger] r->Ok_0@[i]) == compile_statement(
                    old(self).environment(),
                    old(self).numbers(),
                    m.statements@[i],
                ),
    {
        let mut es: Vec<Effect> = Vec::new();
        let mut i: usize = 0;
        while i < m.statements.len()
            invariant
                i <= m.statements@.len(),
                self.can_compile(m),
                es@.len() == i,
                forall|j: int|
                    0 <= j < i ==> (#[trigger] es@[j]) == compile_statement(
                        self.environment(),
                        self.numbers(),
                        m.statements@[j],
                    ),
            decreases m.statements@.len() - i,
        {
            assert(compilable_statement(
                self.environment(),
                self.numbers(),
                m.statements@[i as int],
            ));
            match &m.statements[i] {
                ast::Statement::Effect(e) => {
                    es.push(Effect::new(self.compile_expression(&e.value), e.expanded));
                },
                _ => {},
            }
            i = i + 1;
        }
        Ok(es)
    }
}

} // verus!
