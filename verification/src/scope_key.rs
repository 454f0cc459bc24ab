//! Scope keys: a compact encoding of lexical nesting.
//!
//! A scope key is the path of sibling-block indices from the program
//! root to a scope; the empty key is the global scope.  Key `a` denotes
//! an ancestor-or-self scope of key `b` exactly when `a` is a prefix of
//! `b`, which is the sole relation the symbol table's lookup uses.

use vstd::prelude::*;

verus! {

/// An immutable path of sibling-block indices identifying one lexical
/// scope.  Keys are values: extending or truncating one returns a new
/// key and never mutates the receiver.
#[derive(Eq, Hash, Debug)]
pub struct ScopeKey {
    key: Vec<u8>,
}

impl View for ScopeKey {
    type V = Seq<u8>;

    closed spec fn view(&self) -> Seq<u8> {
        self.key@
    }
}

impl ScopeKey {
    /// Returns a new key equal to `self` with `index` appended: the key
    /// of the `index`-th sibling block inside the scope of `self`.
    pub fn push(&self, index: u8) -> (r: ScopeKey)
        ensures
            r@ == self@.push(index),
    {
        let mut key = self.key.clone();
        proof {
            assert(key@ =~= self.key@);
        }
        key.push(index);
        ScopeKey { key }
    }

    /// Returns a new key equal to `self` with the last index removed:
    /// the key of the enclosing scope.  Calling this on the empty
    /// (global) key is a programming error, so it is ruled out here.
    pub fn pop(&self) -> (r: ScopeKey)
        requires
            self@.len() > 0,
        ensures
            r@ == self@.drop_last(),
    {
        let mut key = self.key.clone();
        proof {
            assert(key@ =~= self.key@);
        }
        key.pop();
        ScopeKey { key }
    }

    /// Whether the key is the empty one identifying the global scope.
    pub fn is_empty(&self) -> (b: bool)
        ensures
            b == (self@.len() == 0),
    {
        self.key.len() == 0
    }

    /// The number of indices in the key; `0` identifies the global scope.
    pub fn size(&self) -> (n: u32)
        requires
            self@.len() <= u32::MAX,
        ensures
            n == self@.len(),
    {
        self.key.len() as u32
    }

    /// Builds the key whose indices are exactly the elements of `v`.
    pub fn from(v: Vec<u8>) -> (r: ScopeKey)
        ensures
            r@ == v@,
    {
        ScopeKey { key: v }
    }
}

impl Clone for ScopeKey {
    fn clone(&self) -> (r: ScopeKey)
        ensures
            r@ == self@,
    {
        let key = self.key.clone();
        proof {
            assert(key@ =~= self.key@);
        }
        ScopeKey { key }
    }
}

impl PartialEq for ScopeKey {
    /// Structural equality over the full index sequence, as the symbol
    /// table's exact-key matching requires.
    fn eq(&self, other: &ScopeKey) -> (r: bool) {
        let r = self.key == other.key;
        proof {
            if r {
                assert(self.key@ =~= other.key@);
            }
        }
        r
    }
}

impl vstd::std_specs::cmp::PartialEqSpecImpl for ScopeKey {
    open spec fn obeys_eq_spec() -> bool {
        true
    }

    open spec fn eq_spec(&self, other: &ScopeKey) -> bool {
        self@ == other@
    }
}

} // verus!
