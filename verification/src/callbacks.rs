//! Closures held for callbacks: a handle owns the boxed closure for as
//! long as the code that calls it back may use it.

use vstd::prelude::*;

verus! {

/// A closure, boxed so that it stays in one place while it is lent out.
pub struct CallbackHandle<F> {
    boxed: Box<F>,
}

impl<F> CallbackHandle<F> {
    /// The closure that the handle holds.
    pub closed spec fn callback(&self) -> F {
        *self.boxed
    }

    /// A handle holding a closure.
    pub fn new(callback: F) -> (r: Self)
        ensures
            r.callback() == callback,
    {
        CallbackHandle { boxed: Box::new(callback) }
    }

    /// The closure, to be handed to the code that calls it back.
    pub fn baton(&self) -> (r: &F)
        ensures
            *r == self.callback(),
    {
        &*self.boxed
    }
}

} // verus!
