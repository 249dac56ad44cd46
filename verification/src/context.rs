//! The shared application context: any cheaply cloneable value the
//! dispatcher clones once per request and hands to the handler.

use vstd::prelude::*;

verus! {

/// A value fit to be the shared application context.
pub trait Context: Clone + Sized {

}

/// A context that can stand in for a context of another type, for handlers
/// written against a narrower capability set.
pub trait AsContext<U: Context>: Context {
    fn as_context(&self) -> U;
}

impl<T: Context> AsContext<T> for T {
    fn as_context(&self) -> T {
        self.clone()
    }
}

} // verus!
