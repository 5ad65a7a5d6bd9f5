use vstd::prelude::*;

verus! {

/// What one step of a fold decides: go on with a new accumulator, stop
/// with it, or stop with an error.
pub enum FoldWhile<T, E> {
    Continue(T),
    Done(T),
    Throw(E),
}

} // verus!
