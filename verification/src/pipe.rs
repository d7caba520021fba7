//! A concrete-value pipeline combinator, the plain-value counterpart of
//! `Result::and_then`: hand any value to the next stage in a chain.

use vstd::prelude::*;

verus! {

/// Hand a value to a function, so fixed-order processing chains read top
/// to bottom.
pub trait Pipe<R>: Sized {
    fn pipe<F: FnOnce(Self) -> R>(self, f: F) -> (r: R)
        requires
            call_requires(f, (self,)),
        ensures
            call_ensures(f, (self,), r),
    ;
}

impl<T: Sized, R> Pipe<R> for T {
    fn pipe<F: FnOnce(Self) -> R>(self, f: F) -> (r: R) {
        f(self)
    }
}

} // verus!
