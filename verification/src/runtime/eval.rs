//! Forcing: running calls until a normal form is reached, binding
//! arguments to parameters on the way.

use vstd::prelude::*;
use crate::runtime::arguments::Arguments;
use crate::runtime::dictionary::Dictionary;
use crate::runtime::error::{ArgumentError, Error, ValueError};
use crate::runtime::key::Key;
use crate::runtime::semantics::{
    apply, bind, check_empty, bind_keyword_part, bind_keywords, bind_optional_keywords, bind_optionals,
    bind_positional_part, bind_required, choose_branch, concat, elements, extend, force, force_boolean, force_dictionary, force_list,
    instantiate, instantiate_dictionaries, instantiate_keywords, instantiate_positionals,
    lemma_extend, native_signature, purify, rest, run_native,
};
use crate::runtime::signature::Signature;
use crate::runtime::value::{
    ArgumentsView, Expr, Function, KeywordArgument, List, Native, Normal, PositionalArgument,
    Value,
};

verus! {

impl Value {
    /// The normal form of this value, reached within `fuel` nested steps.
    ///
    /// A normal form is returned as it is. A call is run: its function is
    /// forced, its arguments are bound, the function runs and its result is
    /// forced in turn. A value that does not reach a normal form within the
    /// fuel fails with `CyclicForce`.
    pub fn force(&self, fuel: usize) -> (r: Result<Normal, Error>)
        ensures
            r == force(*self, fuel as nat),
        decreases fuel, 0nat, 0nat,
    {
        match self {
            Value::Normal(n) => Ok(n.clone()),
            Value::Thunk(t) => {
                if fuel == 0 {
                    return Err(Error::CyclicForce);
                }
                match t.function.force(fuel - 1) {
                    Err(e) => Err(e),
                    Ok(Normal::Function(f)) => {
                        let args = Arguments::thaw(&t.arguments);
                        match f.apply(args, fuel - 1) {
                            Err(e) => Err(e),
                            Ok(r) => r.force(fuel - 1),
                        }
                    },
                    Ok(_) => Err(Error::Value(ValueError::NotFunction)),
                }
            },
        }
    }

    /// The list that this value forces to.
    pub fn list(&self, fuel: usize) -> (r: Result<List, Error>)
        ensures
            r == force_list(*self, fuel as nat),
        decreases fuel, 1nat, 0nat,
    {
        match self.force(fuel) {
            Err(e) => Err(e),
            Ok(Normal::List(l)) => Ok(l),
            Ok(_) => Err(Error::Value(ValueError::NotList)),
        }
    }

    /// The dictionary that this value forces to.
    pub fn dictionary(&self, fuel: usize) -> (r: Result<Dictionary, Error>)
        ensures
            r == force_dictionary(*self, fuel as nat),
        decreases fuel, 1nat, 0nat,
    {
        match self.force(fuel) {
            Err(e) => Err(e),
            Ok(Normal::Dictionary(d)) => Ok(d),
            Ok(_) => Err(Error::Value(ValueError::NotDictionary)),
        }
    }

    /// The boolean that this value forces to.
    pub fn boolean(&self, fuel: usize) -> (r: Result<bool, Error>)
        ensures
            r == force_boolean(*self, fuel as nat),
        decreases fuel, 1nat, 0nat,
    {
        match self.force(fuel) {
            Err(e) => Err(e),
            Ok(Normal::Boolean(b)) => Ok(b),
            Ok(_) => Err(Error::Value(ValueError::NotBoolean)),
        }
    }

    /// The key that this value forces to. Lists, dictionaries, booleans and
    /// functions are rejected.
    pub fn pured(&self, fuel: usize) -> (r: Result<Key, Error>)
        ensures
            r == purify(*self, fuel as nat),
        decreases fuel, 1nat, 0nat,
    {
        match self.force(fuel) {
            Err(e) => Err(e),
            Ok(n) => Key::try_from(n),
        }
    }
}

impl List {
    /// The list without its first element, or `EmptyList` for the empty
    /// list. The tail is forced.
    pub fn rest(&self, fuel: usize) -> (r: Result<List, Error>)
        ensures
            r == rest(*self, fuel as nat),
        decreases fuel, 2nat, 0nat,
    {
        match self {
            List::Empty => Err(Error::Value(ValueError::EmptyList)),
            List::Cons(c) => c.tail.list(fuel),
        }
    }

    /// The elements from first to last. Each cell that is walked takes one
    /// unit of fuel.
    pub fn elements(&self, fuel: usize) -> (r: Result<Vec<Value>, Error>)
        ensures
            match r {
                Ok(vs) => elements(*self, fuel as nat) == Ok::<Seq<Value>, Error>(vs@),
                Err(e) => elements(*self, fuel as nat) == Err::<Seq<Value>, Error>(e),
            },
        decreases fuel, 3nat, 0nat,
    {
        let mut out: Vec<Value> = Vec::new();
        let mut cur: List = self.clone();
        let mut left: usize = fuel;
        loop
            invariant
                left <= fuel,
                elements(*self, fuel as nat) == match elements(cur, left as nat) {
                    Ok(es) => Ok::<Seq<Value>, Error>(out@ + es),
                    Err(e) => Err(e),
                },
            decreases left,
        {
            match cur {
                List::Empty => {
                    proof {
                        assert(out@ + Seq::<Value>::empty() =~= out@);
                    }
                    return Ok(out);
                },
                List::Cons(c) => {
                    if left == 0 {
                        return Err(Error::CyclicForce);
                    }
                    match c.tail.list(left - 1) {
                        Err(e) => {
                            return Err(e);
                        },
                        Ok(t) => {
                            proof {
                                match elements(t, (left - 1) as nat) {
                                    Ok(es) => {
                                        assert(out@ + (seq![c.head] + es) =~= out@.push(c.head)
                                            + es);
                                    },
                                    Err(e) => {},
                                }
                            }
                            out.push(c.head.clone());
                            cur = t;
                            left = left - 1;
                        },
                    }
                },
            }
        }
    }

    /// The elements of this list followed by those of the list value
    /// `other`. The cells of this list are built anew; `other` becomes the
    /// tail of the last of them as it stands, and is forced only where this
    /// list is empty.
    pub fn merge(&self, other: Value, fuel: usize) -> (r: Result<List, Error>)
        ensures
            r == concat(*self, other, fuel as nat),
        decreases fuel, 4nat, 0nat,
    {
        match self.elements(fuel) {
            Err(e) => Err(e),
            Ok(es) => {
                if es.len() == 0 {
                    other.list(fuel)
                } else {
                    let tail = List::strict_prepend(vstd::slice::slice_subrange(es.as_slice(), 1, es.len()), other);
                    proof {
                        assert(es@.subrange(1, es@.len() as int) =~= es@.skip(1));
                    }
                    Ok(List::cons(es[0].clone(), tail))
                }
            },
        }
    }

    /// The choice that `If` makes of this list of conditions and results.
    pub fn choose_branch(&self, fuel: usize) -> (r: Result<Value, Error>)
        ensures
            r == choose_branch(*self, fuel as nat),
        decreases fuel, 3nat, 0nat,
    {
        let mut l: List = self.clone();
        let mut left: usize = fuel;
        loop
            invariant
                left <= fuel,
                choose_branch(*self, fuel as nat) == choose_branch(l, left as nat),
            decreases left,
        {
            let r = match l.rest(left) {
                Err(e) => {
                    return Err(e);
                },
                Ok(r) => r,
            };
            if r.is_empty() {
                return l.first();
            }
            let c = match l.first() {
                Err(e) => {
                    return Err(e);
                },
                Ok(c) => c,
            };
            match c.boolean(left) {
                Err(e) => {
                    return Err(e);
                },
                Ok(true) => {
                    return r.first();
                },
                Ok(false) => {},
            }
            let next = match r.rest(left) {
                Err(e) => {
                    return Err(e);
                },
                Ok(next) => next,
            };
            if left == 0 {
                return Err(Error::CyclicForce);
            }
            l = next;
            left = left - 1;
        }
    }
}

impl Native {
    /// The parameters of this function.
    pub fn signature(&self) -> (r: Signature)
        ensures
            r@ == native_signature(*self),
    {
        let mut positionals: Vec<String> = Vec::new();
        let mut rest: String = String::new();
        match self {
            Native::List => {
                rest = String::from_str("elements");
            },
            Native::If => {
                rest = String::from_str("conds");
            },
            Native::First => {
                positionals.push(String::from_str("list"));
            },
            Native::Rest => {
                positionals.push(String::from_str("list"));
            },
            Native::Merge => {
                positionals.push(String::from_str("first"));
                positionals.push(String::from_str("second"));
            },
            Native::Insert => {
                positionals.push(String::from_str("collection"));
                positionals.push(String::from_str("key"));
                positionals.push(String::from_str("value"));
            },
        }
        let r = Signature::new(
            positionals,
            Vec::new(),
            rest,
            Vec::new(),
            Vec::new(),
            String::new(),
        );
        proof {
            let s = native_signature(*self);
            assert(r@.positionals =~= s.positionals);
            assert(r@.optionals =~= s.optionals);
            assert(r@.keywords =~= s.keywords);
            assert(r@.optional_keywords =~= s.optional_keywords);
            assert(r@.rest =~= s.rest);
            assert(r@.rest_keywords =~= s.rest_keywords);
        }
        r
    }

    /// What this function returns for the bound values `vs`.
    pub fn run(&self, vs: Vec<Value>, fuel: usize) -> (r: Result<Value, Error>)
        requires
            vs@.len() >= native_signature(*self).arity(),
        ensures
            r == run_native(*self, vs@, fuel as nat),
        decreases fuel, 5nat, 0nat,
    {
        proof {
            reveal_strlit("elements");
            reveal_strlit("conds");
        }
        match self {
            Native::List => Ok(vs[0].clone()),
            Native::If => match vs[0].list(fuel) {
                Err(e) => Err(e),
                Ok(l) => l.choose_branch(fuel),
            },
            Native::First => match vs[0].list(fuel) {
                Err(e) => Err(e),
                Ok(l) => l.first(),
            },
            Native::Rest => match vs[0].list(fuel) {
                Err(e) => Err(e),
                Ok(l) => match l.rest(fuel) {
                    Err(e) => Err(e),
                    Ok(r) => Ok(Value::Normal(Normal::List(r))),
                },
            },
            Native::Merge => match vs[0].force(fuel) {
                Err(e) => Err(e),
                Ok(Normal::List(l)) => match l.merge(vs[1].clone(), fuel) {
                    Err(e) => Err(e),
                    Ok(r) => Ok(Value::Normal(Normal::List(r))),
                },
                Ok(Normal::Dictionary(d)) => match vs[1].dictionary(fuel) {
                    Err(e) => Err(e),
                    Ok(o) => Ok(Value::Normal(Normal::Dictionary(d.merge(&o)))),
                },
                Ok(_) => Err(Error::Value(ValueError::NotCollection)),
            },
            Native::Insert => match vs[0].dictionary(fuel) {
                Err(e) => Err(e),
                Ok(d) => match vs[1].pured(fuel) {
                    Err(e) => Err(e),
                    Ok(k) => Ok(Value::Normal(Normal::Dictionary(d.strict_insert(k, vs[2].clone())))),
                },
            },
        }
    }
}

impl Function {
    /// What this function returns for the arguments `args`: the arguments
    /// are bound to the parameters; then an operation of the runtime runs on
    /// the bound values, and a function that was defined returns the value of
    /// its body, not yet forced.
    pub fn apply(&self, args: Arguments, fuel: usize) -> (r: Result<Value, Error>)
        ensures
            r == apply(*self, args@, fuel as nat),
        decreases fuel, 7nat, 0nat,
    {
        match self {
            Function::Native(n) => {
                let s = n.signature();
                match s.bind(args, fuel) {
                    Err(e) => Err(e),
                    Ok(vs) => n.run(vs, fuel),
                }
            },
            Function::Closure(c) => match c.signature.bind(args, fuel) {
                Err(e) => Err(e),
                Ok(vs) => Ok(c.body.instantiate(&vs)),
            },
        }
    }
}

/// The positional arguments of a call.
spec fn positionals_of(e: Expr) -> Vec<crate::runtime::value::PositionalExpr> {
    e->Call_0.positionals
}

/// The keyword arguments of a call.
spec fn keywords_of(e: Expr) -> Vec<crate::runtime::value::KeywordExpr> {
    e->Call_0.keywords
}

/// The spread dictionaries of a call.
spec fn dictionaries_of(e: Expr) -> Vec<Expr> {
    e->Call_0.dictionaries
}

impl Expr {
    /// The value of this expression where the parameters are bound to the
    /// values `vs`. Nothing is forced.
    pub fn instantiate(&self, vs: &Vec<Value>) -> (r: Value)
        ensures
            r == instantiate(*self, vs@),
        decreases self,
    {
        match self {
            Expr::Constant(v) => v.clone(),
            Expr::Parameter(i) => {
                if *i < vs.len() {
                    vs[*i].clone()
                } else {
                    Value::Normal(Normal::Nil)
                }
            },
            Expr::Call(c) => {
                let f = c.function.instantiate(vs);
                let ghost want_ps = instantiate_positionals(*self, vs@);
                let ghost want_ks = instantiate_keywords(*self, vs@);
                let ghost want_ds = instantiate_dictionaries(*self, vs@);
                let mut ps: Vec<PositionalArgument> = Vec::new();
                let mut i: usize = 0;
                while i < c.positionals.len()
                    invariant
                        i <= c.positionals@.len(),
                        *self == Expr::Call(*c),
                        want_ps == instantiate_positionals(*self, vs@),
                        ps@ == want_ps.take(i as int),
                    decreases c.positionals@.len() - i,
                {
                    proof {
                        vstd::std_specs::vec::axiom_vec_index_decreases(positionals_of(*self), i as int);
                        assert(self->Call_0 == *c);
                    }
                    let p = PositionalArgument::new(
                        c.positionals[i].value.instantiate(vs),
                        c.positionals[i].expanded,
                    );
                    proof {
                        assert(want_ps.take(i as int).push(want_ps[i as int]) =~= want_ps.take(
                            i + 1,
                        ));
                    }
                    ps.push(p);
                    i = i + 1;
                }
                let mut ks: Vec<KeywordArgument> = Vec::new();
                let mut j: usize = 0;
                while j < c.keywords.len()
                    invariant
                        j <= c.keywords@.len(),
                        *self == Expr::Call(*c),
                        want_ks == instantiate_keywords(*self, vs@),
                        ks@ == want_ks.take(j as int),
                    decreases c.keywords@.len() - j,
                {
                    proof {
                        vstd::std_specs::vec::axiom_vec_index_decreases(keywords_of(*self), j as int);
                        assert(self->Call_0 == *c);
                    }
                    let k = KeywordArgument::new(
                        c.keywords[j].name.clone(),
                        c.keywords[j].value.instantiate(vs),
                    );
                    proof {
                        assert(want_ks.take(j as int).push(want_ks[j as int]) =~= want_ks.take(
                            j + 1,
                        ));
                    }
                    ks.push(k);
                    j = j + 1;
                }
                let mut ds: Vec<Value> = Vec::new();
                let mut n: usize = 0;
                while n < c.dictionaries.len()
                    invariant
                        n <= c.dictionaries@.len(),
                        *self == Expr::Call(*c),
                        want_ds == instantiate_dictionaries(*self, vs@),
                        ds@ == want_ds.take(n as int),
                    decreases c.dictionaries@.len() - n,
                {
                    proof {
                        vstd::std_specs::vec::axiom_vec_index_decreases(dictionaries_of(*self), n as int);
                        assert(self->Call_0 == *c);
                    }
                    let d = c.dictionaries[n].instantiate(vs);
                    proof {
                        assert(want_ds.take(n as int).push(want_ds[n as int]) =~= want_ds.take(
                            n + 1,
                        ));
                    }
                    ds.push(d);
                    n = n + 1;
                }
                proof {
                    assert(want_ps.take(c.positionals@.len() as int) =~= want_ps);
                    assert(want_ks.take(c.keywords@.len() as int) =~= want_ks);
                    assert(want_ds.take(c.dictionaries@.len() as int) =~= want_ds);
                }
                Value::app(f, Arguments::new(ps.as_slice(), ks.as_slice(), ds.as_slice()))
            },
        }
    }
}

impl Signature {
    /// The values of the required positional parameters.
    fn bind_required(&self, args: &mut Arguments) -> (r: Result<Vec<Value>, Error>)
        ensures
            match r {
                Ok(vs) => bind_required(self@.positionals.len(), old(args)@) == Ok::<
                    (Seq<Value>, ArgumentsView),
                    Error,
                >((vs@, final(args)@)) && vs@.len() == self@.positionals.len(),
                Err(e) => bind_required(self@.positionals.len(), old(args)@) == Err::<
                    (Seq<Value>, ArgumentsView),
                    Error,
                >(e),
            },
    {
        let n: usize = self.positionals.len();
        let mut out: Vec<Value> = Vec::new();
        let mut i: usize = 0;
        proof {
            match bind_required(n as nat, args@) {
                Ok((vs, a)) => {
                    assert(out@ + vs =~= vs);
                },
                Err(e) => {},
            }
        }
        while i < n
            invariant
                i <= n,
                n == self@.positionals.len(),
                out@.len() == i,
                bind_required(n as nat, old(args)@) == extend(
                    out@,
                    bind_required((n - i) as nat, args@),
                ),
            decreases n - i,
        {
            let ghost before = args@;
            match args.next_positional() {
                None => {
                    return Err(Error::Argument(ArgumentError::MissingPositional));
                },
                Some(v) => {
                    proof {
                        lemma_extend(out@, v, bind_required((n - i - 1) as nat, args@));
                    }
                    out.push(v);
                    i = i + 1;
                },
            }
        }
        proof {
            assert(out@ + Seq::<Value>::empty() =~= out@);
        }
        Ok(out)
    }

    /// Binds the optional positional parameters: their values are appended
    /// to `out`, which holds the values bound so far.
    fn bind_optionals(&self, args: &mut Arguments, out: &mut Vec<Value>)
        ensures
            final(out)@ == old(out)@ + bind_optionals(self@.optionals, old(args)@, old(out)@).0,
            final(args)@ == bind_optionals(self@.optionals, old(args)@, old(out)@).1,
            final(out)@.len() == old(out)@.len() + self@.optionals.len(),
    {
        let n: usize = self.optionals.len();
        let ghost os = self@.optionals;
        let ghost want = bind_optionals(os, args@, out@);
        let ghost all = out@ + want.0;
        let mut i: usize = 0;
        proof {
            assert(os.skip(0) =~= os);
        }
        while i < n
            invariant
                i <= n,
                n == os.len(),
                os == self@.optionals,
                out@.len() == old(out)@.len() + i,
                all == out@ + bind_optionals(os.skip(i as int), args@, out@).0,
                want.1 == bind_optionals(os.skip(i as int), args@, out@).1,
            decreases n - i,
        {
            let ghost before = out@;
            let v = match args.next_positional() {
                None => self.optionals[i].default.instantiate(out),
                Some(v) => v,
            };
            proof {
                let rest = bind_optionals(os.skip(i as int).skip(1), args@, before.push(v));
                assert(os.skip(i as int).skip(1) =~= os.skip(i + 1));
                assert(os.skip(i as int)[0] == self.optionals@[i as int]@);
                assert(before + (seq![v] + rest.0) =~= before.push(v) + rest.0);
            }
            out.push(v);
            i = i + 1;
        }
        proof {
            assert(out@ + Seq::<Value>::empty() =~= out@);
        }
    }

    /// The values of the required keyword parameters.
    fn bind_keywords(&self, args: &mut Arguments, fuel: usize) -> (r: Result<Vec<Value>, Error>)
        ensures
            match r {
                Ok(vs) => bind_keywords(self@.keywords, old(args)@, fuel as nat) == Ok::<
                    (Seq<Value>, ArgumentsView),
                    Error,
                >((vs@, final(args)@)) && vs@.len() == self@.keywords.len(),
                Err(e) => bind_keywords(self@.keywords, old(args)@, fuel as nat) == Err::<
                    (Seq<Value>, ArgumentsView),
                    Error,
                >(e),
            },
        decreases fuel, 3nat, 0nat,
    {
        let n: usize = self.keywords.len();
        let ghost names = self@.keywords;
        let mut out: Vec<Value> = Vec::new();
        let mut i: usize = 0;
        proof {
            assert(names.skip(0) =~= names);
            match bind_keywords(names, args@, fuel as nat) {
                Ok((vs, a)) => {
                    assert(out@ + vs =~= vs);
                },
                Err(e) => {},
            }
        }
        while i < n
            invariant
                i <= n,
                n == names.len(),
                names == self@.keywords,
                out@.len() == i,
                bind_keywords(names, old(args)@, fuel as nat) == extend(
                    out@,
                    bind_keywords(names.skip(i as int), args@, fuel as nat),
                ),
            decreases n - i,
        {
            proof {
                assert(names.skip(i as int).skip(1) =~= names.skip(i + 1));
                assert(names.skip(i as int)[0] == self.keywords@[i as int]@);
            }
            match args.search_keyword(self.keywords[i].as_str(), fuel) {
                Err(e) => {
                    return Err(e);
                },
                Ok(v) => {
                    proof {
                        lemma_extend(
                            out@,
                            v,
                            bind_keywords(names.skip(i + 1), args@, fuel as nat),
                        );
                    }
                    out.push(v);
                    i = i + 1;
                },
            }
        }
        proof {
            assert(out@ + Seq::<Value>::empty() =~= out@);
        }
        Ok(out)
    }

    /// Binds the optional keyword parameters: their values are appended to
    /// `out`, which holds the values bound so far.
    fn bind_optional_keywords(&self, args: &mut Arguments, fuel: usize, out: &mut Vec<Value>) -> (r:
        Result<(), Error>)
        ensures
            match bind_optional_keywords(
                self@.optional_keywords,
                old(args)@,
                fuel as nat,
                old(out)@,
            ) {
                Ok((vs, a)) => r is Ok && final(out)@ == old(out)@ + vs && final(args)@ == a
                    && vs.len() == self@.optional_keywords.len(),
                Err(e) => r == Err::<(), Error>(e),
            },
        decreases fuel, 3nat, 0nat,
    {
        let n: usize = self.optional_keywords.len();
        let ghost os = self@.optional_keywords;
        let ghost want = bind_optional_keywords(os, args@, fuel as nat, out@);
        let ghost start = out@;
        let mut i: usize = 0;
        proof {
            assert(os.skip(0) =~= os);
            assert(out@.skip(start.len() as int) =~= Seq::<Value>::empty());
            match want {
                Ok((vs, a)) => {
                    assert(Seq::<Value>::empty() + vs =~= vs);
                },
                Err(e) => {},
            }
        }
        while i < n
            invariant
                i <= n,
                n == os.len(),
                os == self@.optional_keywords,
                start == old(out)@,
                out@.len() == start.len() + i,
                out@.take(start.len() as int) == start,
                want == bind_optional_keywords(os, old(args)@, fuel as nat, old(out)@),
                want == extend(
                    out@.skip(start.len() as int),
                    bind_optional_keywords(os.skip(i as int), args@, fuel as nat, out@),
                ),
            decreases n - i,
        {
            let ghost before = out@;
            proof {
                assert(os.skip(i as int).skip(1) =~= os.skip(i + 1));
                assert(os.skip(i as int)[0] == self.optional_keywords@[i as int]@);
            }
            let v = match args.search_keyword(self.optional_keywords[i].name.as_str(), fuel) {
                Err(Error::Argument(ArgumentError::MissingKeyword)) => {
                    self.optional_keywords[i].default.instantiate(out)
                },
                Err(e) => {
                    return Err(e);
                },
                Ok(v) => v,
            };
            proof {
                lemma_extend(
                    before.skip(start.len() as int),
                    v,
                    bind_optional_keywords(os.skip(i + 1), args@, fuel as nat, before.push(v)),
                );
                assert(before.skip(start.len() as int).push(v) =~= before.push(v).skip(
                    start.len() as int,
                ));
                assert(before.push(v).take(start.len() as int) =~= before.take(
                    start.len() as int,
                ));
            }
            out.push(v);
            i = i + 1;
        }
        proof {
            let new = out@.skip(start.len() as int);
            assert(new + Seq::<Value>::empty() =~= new);
            assert(out@ =~= start + new);
        }
        Ok(())
    }

    /// The values of the parameters that are given by position.
    fn bind_positional_part(&self, args: &mut Arguments) -> (r: Result<Vec<Value>, Error>)
        ensures
            match r {
                Ok(vs) => bind_positional_part(self@, old(args)@) == Ok::<
                    (Seq<Value>, ArgumentsView),
                    Error,
                >((vs@, final(args)@)) && vs@.len() == self@.positionals.len()
                    + self@.optionals.len() + (if self@.rest.len() > 0 {
                    1nat
                } else {
                    0nat
                }),
                Err(e) => bind_positional_part(self@, old(args)@) == Err::<
                    (Seq<Value>, ArgumentsView),
                    Error,
                >(e),
            },
    {
        let mut out: Vec<Value> = match self.bind_required(args) {
            Err(e) => {
                return Err(e);
            },
            Ok(vs) => vs,
        };
        self.bind_optionals(args, &mut out);
        if !self.rest.as_str().is_empty() {
            let ghost before = out@;
            let rest = args.rest_positionals();
            out.push(rest);
            proof {
                assert(out@ =~= before + seq![rest]);
            }
        }
        Ok(out)
    }

    /// Binds the parameters that are given by name: their values are
    /// appended to `out`, which holds the values of the parameters given by
    /// position.
    fn bind_keyword_part(&self, args: &mut Arguments, fuel: usize, out: &mut Vec<Value>) -> (r:
        Result<(), Error>)
        ensures
            match bind_keyword_part(self@, old(args)@, fuel as nat, old(out)@) {
                Ok((vs, a)) => r is Ok && final(out)@ == old(out)@ + vs && final(args)@ == a
                    && vs.len() == self@.keywords.len() + self@.optional_keywords.len() + (
                if self@.rest_keywords.len() > 0 {
                    1nat
                } else {
                    0nat
                }),
                Err(e) => r == Err::<(), Error>(e),
            },
        decreases fuel, 4nat, 0nat,
    {
        let ghost before = out@;
        let mut o4 = match self.bind_keywords(args, fuel) {
            Err(e) => {
                return Err(e);
            },
            Ok(vs) => vs,
        };
        let ghost v4 = o4@;
        out.append(&mut o4);
        proof {
            assert(out@ =~= before + v4);
        }
        let ghost a4 = args@;
        match self.bind_optional_keywords(args, fuel, out) {
            Err(e) => {
                return Err(e);
            },
            Ok(_) => {},
        }
        let ghost v5 = bind_optional_keywords(
            self@.optional_keywords,
            a4,
            fuel as nat,
            before + v4,
        )->Ok_0.0;
        proof {
            assert(out@ =~= before + (v4 + v5));
        }
        if !self.rest_keywords.as_str().is_empty() {
            let rest = args.rest_keywords();
            out.push(rest);
            proof {
                assert(out@ =~= before + (v4 + v5 + seq![rest]));
            }
        }
        Ok(())
    }

    /// The values of the parameters for the arguments `args`, one for each
    /// parameter: required positional, optional positional, rest positional,
    /// required keyword, optional keyword, rest keyword.
    ///
    /// A required parameter without an argument fails the binding, an
    /// optional one takes the value of its default. An argument that no
    /// parameter took fails the binding at the end.
    pub fn bind(&self, args: Arguments, fuel: usize) -> (r: Result<Vec<Value>, Error>)
        ensures
            match r {
                Ok(vs) => bind(self@, args@, fuel as nat) == Ok::<Seq<Value>, Error>(vs@)
                    && vs@.len() == self@.arity(),
                Err(e) => bind(self@, args@, fuel as nat) == Err::<Seq<Value>, Error>(e),
            },
        decreases fuel, 6nat, 0nat,
    {
        let mut args = args;
        let mut out: Vec<Value> = match self.bind_positional_part(&mut args) {
            Err(e) => {
                return Err(e);
            },
            Ok(vs) => vs,
        };
        match self.bind_keyword_part(&mut args, fuel, &mut out) {
            Err(e) => {
                return Err(e);
            },
            Ok(_) => {},
        }
        match args.check_empty(fuel) {
            Err(e) => Err(e),
            Ok(()) => Ok(out),
        }
    }
}

} // verus!
