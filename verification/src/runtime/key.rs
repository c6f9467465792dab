//! The keys of dictionaries.

use vstd::prelude::*;
use vstd::string::StringSliceAdditionalSpecFns;
use crate::runtime::error::{Error, ValueError};
use crate::runtime::number::Number;
use crate::runtime::value::Normal;

verus! {

/// A normal form that can key a dictionary.
#[derive(Debug)]
pub enum Key {
    Nil,
    Number(Number),
    String(String),
}

/// The identity of a key: numbers by bit pattern, strings by their text.
pub enum KeyView {
    Nil,
    Number(u64),
    String(Seq<char>),
}

impl View for Key {
    type V = KeyView;

    open spec fn view(&self) -> KeyView {
        match *self {
            Key::Nil => KeyView::Nil,
            Key::Number(n) => KeyView::Number(n.bits),
            Key::String(s) => KeyView::String(s@),
        }
    }
}

/// Where the hash of a text starts.
pub const SEED: u64 = 0xcbf2_9ce4_8422_2325;

/// What a hash is multiplied by at each step.
pub const PRIME: u64 = 0x0000_0100_0000_01b3;

/// The hash `h` after `x` is mixed into it.
pub open spec fn step(h: u64, x: u64) -> u64 {
    (h ^ x).wrapping_mul(PRIME)
}

/// The hash of the bytes `bytes`: each byte is mixed in, the first one
/// first.
pub open spec fn hash_bytes(bytes: Seq<u8>) -> u64
    decreases bytes.len(),
{
    if bytes.len() == 0 {
        SEED
    } else {
        step(hash_bytes(bytes.drop_last()), bytes.last() as u64)
    }
}

/// The hash of a key: a number is hashed by its bit pattern, a string by the
/// bytes that encode it. Keys of one identity have one hash.
pub open spec fn hash(k: KeyView) -> u64 {
    match k {
        KeyView::Nil => 0,
        KeyView::Number(bits) => step(SEED, bits),
        KeyView::String(s) => hash_bytes(vstd::utf8::encode_utf8(s)),
    }
}

/// The key that a normal form makes, if it can be one.
pub open spec fn key_of(n: Normal) -> Option<Key> {
    match n {
        Normal::Nil => Some(Key::Nil),
        Normal::Number(x) => Some(Key::Number(x)),
        Normal::String(s) => Some(Key::String(s)),
        _ => None,
    }
}

/// The normal form that a key came from.
pub open spec fn normal_of(k: Key) -> Normal {
    match k {
        Key::Nil => Normal::Nil,
        Key::Number(x) => Normal::Number(x),
        Key::String(s) => Normal::String(s),
    }
}

impl Key {
    /// Nil, numbers and strings become keys; every other normal form is
    /// rejected.
    pub fn try_from(n: Normal) -> (r: Result<Key, Error>)
        ensures
            r == match key_of(n) {
                Some(k) => Ok::<Key, Error>(k),
                None => Err(Error::Value(ValueError::NotKey)),
            },
    {
        match n {
            Normal::Nil => Ok(Key::Nil),
            Normal::Number(x) => Ok(Key::Number(x)),
            Normal::String(s) => Ok(Key::String(s)),
            _ => Err(Error::Value(ValueError::NotKey)),
        }
    }

    pub fn from_str(s: &str) -> (r: Key)
        ensures
            r@ == KeyView::String(s@),
    {
        Key::String(String::from_str(s))
    }

    pub fn into(self) -> (r: Normal)
        ensures
            r == normal_of(self),
    {
        match self {
            Key::Nil => Normal::Nil,
            Key::Number(x) => Normal::Number(x),
            Key::String(s) => Normal::String(s),
        }
    }

    /// The hash of this key.
    pub fn hash(&self) -> (r: u64)
        ensures
            r == hash(self@),
    {
        match self {
            Key::Nil => 0,
            Key::Number(n) => (SEED ^ n.bits).wrapping_mul(PRIME),
            Key::String(s) => {
                let bytes = s.as_str().as_bytes();
                let mut h: u64 = SEED;
                let mut i: usize = 0;
                proof {
                    assert(bytes@.take(0) =~= Seq::<u8>::empty());
                }
                while i < bytes.len()
                    invariant
                        i <= bytes@.len(),
                        h == hash_bytes(bytes@.take(i as int)),
                    decreases bytes@.len() - i,
                {
                    proof {
                        assert(bytes@.take(i + 1).drop_last() =~= bytes@.take(i as int));
                        assert(bytes@.take(i + 1).last() == bytes@[i as int]);
                    }
                    h = (h ^ (bytes[i] as u64)).wrapping_mul(PRIME);
                    i = i + 1;
                }
                proof {
                    assert(bytes@.take(bytes@.len() as int) =~= bytes@);
                }
                h
            },
        }
    }

    /// Whether two keys name the same dictionary entry.
    pub fn same(&self, other: &Key) -> (r: bool)
        ensures
            r == (self@ == other@),
    {
        match self {
            Key::Nil => match other {
                Key::Nil => true,
                _ => false,
            },
            Key::Number(a) => match other {
                Key::Number(b) => a.bits == b.bits,
                _ => false,
            },
            Key::String(a) => match other {
                Key::String(b) => *a == *b,
                _ => false,
            },
        }
    }
}

impl Clone for Key {
    fn clone(&self) -> (r: Key)
        ensures
            r == *self,
    {
        match self {
            Key::Nil => Key::Nil,
            Key::Number(x) => Key::Number(x.clone()),
            Key::String(s) => Key::String(s.clone()),
        }
    }
}

} // verus!
