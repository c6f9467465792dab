//! The bounded queues that hold the inline arguments of a call.

use array_queue::ArrayQueue;
use vstd::prelude::*;
use crate::runtime::value::{KeywordArgument, Value};

verus! {

/// `array_queue::ArrayQueue`: a queue of at most `N` items in an array. What
/// it holds is known only through the functions below.
#[verifier::external_type_specification]
#[verifier::external_body]
#[verifier::reject_recursive_types(T)]
pub struct ExArrayQueue<T, const N: usize>(ArrayQueue<T, N>);

/// The values in a queue of positional arguments, the front first.
pub uninterp spec fn positional_items(q: ArrayQueue<Value, 4>) -> Seq<Value>;

/// The arguments in a queue of keyword arguments, the front first.
pub uninterp spec fn keyword_items(q: ArrayQueue<KeywordArgument, 4>) -> Seq<KeywordArgument>;

/// `ArrayQueue::new`: a queue that holds nothing.
#[verifier::external_body]
pub(crate) fn new_positionals() -> (q: ArrayQueue<Value, 4>)
    ensures
        positional_items(q) == Seq::<Value>::empty(),
{
    ArrayQueue::new()
}

/// `ArrayQueue::push_back`: with fewer than four values in the queue the
/// value goes to the back and the call succeeds; with four it fails and the
/// queue stays as it was.
#[verifier::external_body]
pub(crate) fn push_positional(q: &mut ArrayQueue<Value, 4>, v: Value) -> (r: bool)
    ensures
        r == (positional_items(*old(q)).len() < 4),
        r ==> positional_items(*final(q)) == positional_items(*old(q)).push(v),
        !r ==> positional_items(*final(q)) == positional_items(*old(q)),
{
    q.push_back(v).is_ok()
}

/// `ArrayQueue::pop_front`: the front value leaves the queue and is
/// returned; an empty queue gives nothing and stays empty.
#[verifier::external_body]
pub(crate) fn pop_positional(q: &mut ArrayQueue<Value, 4>) -> (r: Option<Value>)
    ensures
        positional_items(*old(q)).len() == 0 ==> r is None && positional_items(*final(q))
            == positional_items(*old(q)),
        positional_items(*old(q)).len() > 0 ==> r == Some(positional_items(*old(q))[0])
            && positional_items(*final(q)) == positional_items(*old(q)).skip(1),
{
    q.pop_front()
}

/// `ArrayQueue::len`: how many values the queue holds, never more than its
/// four places.
#[verifier::external_body]
pub(crate) fn positional_count(q: &ArrayQueue<Value, 4>) -> (r: usize)
    ensures
        r == positional_items(*q).len(),
        r <= 4,
{
    q.len()
}

/// `ArrayQueue::new`: a queue that holds nothing.
#[verifier::external_body]
pub(crate) fn new_keywords() -> (q: ArrayQueue<KeywordArgument, 4>)
    ensures
        keyword_items(q) == Seq::<KeywordArgument>::empty(),
{
    ArrayQueue::new()
}

/// `ArrayQueue::push_back`: with fewer than four arguments in the queue the
/// argument goes to the back and the call succeeds; with four it fails and
/// the queue stays as it was.
#[verifier::external_body]
pub(crate) fn push_keyword(q: &mut ArrayQueue<KeywordArgument, 4>, k: KeywordArgument) -> (r: bool)
    ensures
        r == (keyword_items(*old(q)).len() < 4),
        r ==> keyword_items(*final(q)) == keyword_items(*old(q)).push(k),
        !r ==> keyword_items(*final(q)) == keyword_items(*old(q)),
{
    q.push_back(k).is_ok()
}

/// `ArrayQueue::pop_front`: the front argument leaves the queue and is
/// returned; an empty queue gives nothing and stays empty.
#[verifier::external_body]
pub(crate) fn pop_keyword(q: &mut ArrayQueue<KeywordArgument, 4>) -> (r: Option<KeywordArgument>)
    ensures
        keyword_items(*old(q)).len() == 0 ==> r is None && keyword_items(*final(q))
            == keyword_items(*old(q)),
        keyword_items(*old(q)).len() > 0 ==> r == Some(keyword_items(*old(q))[0])
            && keyword_items(*final(q)) == keyword_items(*old(q)).skip(1),
{
    q.pop_front()
}

/// `ArrayQueue::len`: how many arguments the queue holds, never more than
/// its four places.
#[verifier::external_body]
pub(crate) fn keyword_count(q: &ArrayQueue<KeywordArgument, 4>) -> (r: usize)
    ensures
        r == keyword_items(*q).len(),
        r <= 4,
{
    q.len()
}

} // verus!
