//! Collation of an ordered group of raw items into one batch.

use vstd::prelude::*;

verus! {

/// Collates an ordered group of raw items into one batch-shaped unit.
///
/// A batcher is a pure function of its inputs: `batch_spec` is that
/// function, stated over the batch type's view, and every implementation
/// proves its `batch` against it. The batcher holds no mutable state, so
/// one batcher value may serve any number of loader workers.
pub trait Batcher<I, O: View>: Sized {
    /// What collating `items` returns, as a mathematical function.
    spec fn batch_spec(&self, items: Seq<I>) -> O::V;

    /// Collates `items`, in order, into one batch.
    fn batch(&self, items: Vec<I>) -> (r: O)
        ensures
            r@ == self.batch_spec(items@),
    ;
}

/// The identity collation: a batch is the ordered vector of its items.
#[derive(Clone, Copy)]
pub struct VecBatcher;

impl<I> Batcher<I, Vec<I>> for VecBatcher {
    open spec fn batch_spec(&self, items: Seq<I>) -> Seq<I> {
        items
    }

    fn batch(&self, items: Vec<I>) -> (r: Vec<I>) {
        items
    }
}

} // verus!
