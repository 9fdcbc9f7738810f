//! The parameters a route match captures: (name, value) pairs in a small
//! inline vector.

use vstd::prelude::*;
use smallvec::SmallVec;

verus! {

/// The captured (name, value) pairs, held in a `SmallVec` with room for four
/// inline.
#[verifier::external_body]
pub struct Params {
    items: SmallVec<[(String, String); 4]>,
}

/// The pairs `p` holds, in order, as values.
pub uninterp spec fn params_items(p: Params) -> Seq<(Seq<char>, Seq<char>)>;

impl Params {
    /// `SmallVec::new`: no pairs.
    #[verifier::external_body]
    pub fn new() -> (p: Params)
        ensures
            params_items(p) == Seq::<(Seq<char>, Seq<char>)>::empty(),
    {
        Params { items: SmallVec::new() }
    }

    /// `SmallVec::push`: the pair goes at the end.  (It panics only when the
    /// vector would outgrow `isize::MAX` bytes, which no vector in memory
    /// reaches; that bound is left unstated, as for `Vec::push`.)
    #[verifier::external_body]
    pub fn push(&mut self, name: String, value: String)
        ensures
            params_items(*final(self)) == params_items(*old(self)).push((name@, value@)),
    {
        self.items.push((name, value));
    }

    /// `SmallVec::len`: the number of pairs.
    #[verifier::external_body]
    pub fn len(&self) -> (n: usize)
        ensures
            n == params_items(*self).len(),
    {
        self.items.len()
    }

    /// `SmallVec::truncate`: keeps the first `len` pairs; no effect when
    /// there are not more than `len`.
    #[verifier::external_body]
    pub fn truncate(&mut self, len: usize)
        ensures
            len <= params_items(*old(self)).len() ==> params_items(*final(self)) == params_items(
                *old(self),
            ).take(len as int),
            len > params_items(*old(self)).len() ==> params_items(*final(self)) == params_items(
                *old(self),
            ),
    {
        self.items.truncate(len);
    }

    /// Indexing the `SmallVec`: the pair at position `i`.
    #[verifier::external_body]
    pub fn get(&self, i: usize) -> (pair: &(String, String))
        requires
            i < params_items(*self).len(),
        ensures
            (pair.0@, pair.1@) == params_items(*self)[i as int],
    {
        &self.items[i]
    }
}


} // verus!
