//! Indexing without a run-time bounds check: the caller proves the index valid.

use vstd::prelude::*;

verus! {

/// Access to the entries of a storage layout by an index of type `I`, with
/// the bounds obligation moved from run time to the caller's proof.
pub trait IndexUnchecked<I> {
    type Output;

    /// Whether `index` addresses an entry.
    spec fn index_valid(&self, index: I) -> bool;

    /// The entry that `index` addresses.
    spec fn entry(&self, index: I) -> Self::Output;

    /// Whether `next` is `self` with the entry at `index` replaced by `value`.
    spec fn stored(&self, next: &Self, index: I, value: Self::Output) -> bool;

    /// A reference to the entry at `index`.
    fn get_unchecked(&self, index: I) -> (r: &Self::Output)
        requires
            self.index_valid(index),
        ensures
            *r == self.entry(index),
    ;

    /// A mutable reference to the entry at `index`.
    fn get_unchecked_mut(&mut self, index: I) -> (r: &mut Self::Output)
        requires
            old(self).index_valid(index),
        ensures
            *r == old(self).entry(index),
            old(self).stored(&*final(self), index, *final(r)),
    ;
}

} // verus!
