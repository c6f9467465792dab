//! The text of a value.

use vstd::prelude::*;
use crate::runtime::dictionary::{entries, Dictionary};
use crate::runtime::error::Error;
use crate::runtime::key::Key;
use crate::runtime::semantics::{
    join, render, render_all, render_entries, render_key, render_normal,
};
use crate::runtime::signature::texts;
use crate::runtime::value::{Normal, Value};

verus! {

/// The texts `ts` with one space between each two of them.
pub fn join_texts(ts: &Vec<String>) -> (r: String)
    ensures
        r@ == join(texts(ts@)),
{
    let mut out: String = String::new();
    let mut i: usize = 0;
    proof {
        assert(texts(ts@).take(0) =~= Seq::<Seq<char>>::empty());
    }
    while i < ts.len()
        invariant
            i <= ts.len(),
            out@ == join(texts(ts@).take(i as int)),
        decreases ts.len() - i,
    {
        proof {
            let all = texts(ts@);
            assert(all.take(i + 1).drop_last() =~= all.take(i as int));
            assert(all.take(i + 1).last() == ts@[i as int]@);
            if i == 0 {
                assert(out@ + ts@[0]@ =~= ts@[0]@);
            }
        }
        if i > 0 {
            out.append(" ");
        }
        out.append(ts[i].as_str());
        i = i + 1;
    }
    proof {
        assert(texts(ts@).take(ts.len() as int) =~= texts(ts@));
    }
    out
}

impl Key {
    /// The text of this key.
    pub fn to_string(&self) -> (r: String)
        ensures
            r@ == render_key(*self),
    {
        match self {
            Key::Nil => String::from_str("nil"),
            Key::Number(n) => n.text.clone(),
            Key::String(s) => s.clone(),
        }
    }
}

impl Value {
    /// The text of this value, which is forced. A failure to force it, or
    /// any value inside it, is returned in place of a text.
    pub fn to_string(&self, fuel: usize) -> (r: Result<String, Error>)
        ensures
            match r {
                Ok(s) => render(*self, fuel as nat) == Ok::<Seq<char>, Error>(s@),
                Err(e) => render(*self, fuel as nat) == Err::<Seq<char>, Error>(e),
            },
        decreases fuel, 9nat, 0nat,
    {
        match self.force(fuel) {
            Err(e) => Err(e),
            Ok(n) => n.to_string(fuel),
        }
    }

    /// The texts of the values `vs`, in their order.
    fn render_all(vs: &Vec<Value>, fuel: usize) -> (r: Result<Vec<String>, Error>)
        ensures
            match r {
                Ok(ts) => render_all(vs@, fuel as nat) == Ok::<Seq<Seq<char>>, Error>(texts(ts@)),
                Err(e) => render_all(vs@, fuel as nat) == Err::<Seq<Seq<char>>, Error>(e),
            },
        decreases fuel, 7nat, 0nat,
    {
        let mut out: Vec<String> = Vec::new();
        let mut i: usize = 0;
        proof {
            assert(vs@.take(0) =~= Seq::<Value>::empty());
            assert(texts(out@) =~= Seq::<Seq<char>>::empty());
        }
        while i < vs.len()
            invariant
                i <= vs.len(),
                render_all(vs@.take(i as int), fuel as nat) == Ok::<Seq<Seq<char>>, Error>(
                    texts(out@),
                ),
            decreases vs.len() - i,
        {
            let ghost done = vs@.take(i + 1);
            proof {
                assert(done.drop_last() =~= vs@.take(i as int));
                assert(done.last() == vs@[i as int]);
            }
            if fuel == 0 {
                proof {
                    lemma_render_all_stops(vs@, done, fuel as nat);
                }
                return Err(Error::CyclicForce);
            }
            match vs[i].to_string(fuel - 1) {
                Err(e) => {
                    proof {
                        lemma_render_all_stops(vs@, done, fuel as nat);
                    }
                    return Err(e);
                },
                Ok(t) => {
                    proof {
                        assert(texts(out@).push(t@) =~= texts(out@.push(t)));
                    }
                    out.push(t);
                },
            }
            i = i + 1;
        }
        proof {
            assert(vs@.take(vs.len() as int) =~= vs@);
        }
        Ok(out)
    }
}

/// A rendering that has failed on some of the leading values has failed, in
/// the same way, on all of them.
proof fn lemma_render_all_stops(vs: Seq<Value>, done: Seq<Value>, fuel: nat)
    requires
        done.len() <= vs.len(),
        done == vs.take(done.len() as int),
        render_all(done, fuel) is Err,
    ensures
        render_all(vs, fuel) == render_all(done, fuel),
    decreases vs.len(),
{
    if done.len() < vs.len() {
        assert(vs.drop_last().take(done.len() as int) =~= done);
        lemma_render_all_stops(vs.drop_last(), done, fuel);
    } else {
        assert(vs.take(vs.len() as int) =~= vs);
    }
}

/// A rendering that has failed on some of the leading entries has failed,
/// in the same way, on all of them.
proof fn lemma_render_entries_stops(es: Seq<(Key, Value)>, done: Seq<(Key, Value)>, fuel: nat)
    requires
        done.len() <= es.len(),
        done == es.take(done.len() as int),
        render_entries(done, fuel) is Err,
    ensures
        render_entries(es, fuel) == render_entries(done, fuel),
    decreases es.len(),
{
    if done.len() < es.len() {
        assert(es.drop_last().take(done.len() as int) =~= done);
        lemma_render_entries_stops(es.drop_last(), done, fuel);
    } else {
        assert(es.take(es.len() as int) =~= es);
    }
}

impl Normal {
    /// The text of this normal form.
    pub fn to_string(&self, fuel: usize) -> (r: Result<String, Error>)
        ensures
            match r {
                Ok(s) => render_normal(*self, fuel as nat) == Ok::<Seq<char>, Error>(s@),
                Err(e) => render_normal(*self, fuel as nat) == Err::<Seq<char>, Error>(e),
            },
        decreases fuel, 8nat, 0nat,
    {
        match self {
            Normal::Nil => Ok(String::from_str("nil")),
            Normal::Number(x) => Ok(x.text.clone()),
            Normal::Boolean(b) => Ok(
                if *b {
                    String::from_str("true")
                } else {
                    String::from_str("false")
                },
            ),
            Normal::String(s) => Ok(s.clone()),
            Normal::List(l) => match l.elements(fuel) {
                Err(e) => Err(e),
                Ok(es) => match Value::render_all(&es, fuel) {
                    Err(e) => Err(e),
                    Ok(ts) => {
                        let mut out: String = String::from_str("[");
                        out.append(join_texts(&ts).as_str());
                        out.append("]");
                        Ok(out)
                    },
                },
            },
            Normal::Dictionary(d) => d.to_string(fuel),
            Normal::Function(f) => Ok(String::from_str("<function>")),
        }
    }
}

impl Dictionary {
    /// The text of this dictionary: between braces, each key in front of its
    /// value, with one space between each two texts.
    pub fn to_string(&self, fuel: usize) -> (r: Result<String, Error>)
        ensures
            match r {
                Ok(s) => render_normal(Normal::Dictionary(*self), fuel as nat) == Ok::<
                    Seq<char>,
                    Error,
                >(s@),
                Err(e) => render_normal(Normal::Dictionary(*self), fuel as nat) == Err::<
                    Seq<char>,
                    Error,
                >(e),
            },
        decreases fuel, 7nat, 1nat,
    {
        let mut ss: Vec<String> = Vec::new();
        let es = self.entries();
        let mut i: usize = 0;
        proof {
            assert(es@.take(0) =~= Seq::<(Key, Value)>::empty());
            assert(texts(ss@) =~= Seq::<Seq<char>>::empty());
        }
        while i < es.len()
            invariant
                i <= es@.len(),
                es@ == entries(*self),
                render_entries(es@.take(i as int), fuel as nat) == Ok::<Seq<Seq<char>>, Error>(
                    texts(ss@),
                ),
            decreases es@.len() - i,
        {
            let ghost done = es@.take(i + 1);
            proof {
                assert(done.drop_last() =~= es@.take(i as int));
                assert(done.last() == es@[i as int]);
            }
            if fuel == 0 {
                proof {
                    lemma_render_entries_stops(es@, done, fuel as nat);
                }
                return Err(Error::CyclicForce);
            }
            let t = match es[i].1.to_string(fuel - 1) {
                Err(e) => {
                    proof {
                        lemma_render_entries_stops(es@, done, fuel as nat);
                    }
                    return Err(e);
                },
                Ok(t) => t,
            };
            let kt = es[i].0.to_string();
            proof {
                assert(texts(ss@).push(kt@).push(t@) =~= texts(ss@.push(kt).push(t)));
            }
            ss.push(kt);
            ss.push(t);
            i = i + 1;
        }
        proof {
            assert(es@.take(es@.len() as int) =~= es@);
        }
        let mut out: String = String::from_str("{");
        out.append(join_texts(&ss).as_str());
        out.append("}");
        Ok(out)
    }
}

} // verus!
