//! Piping a value through functions: `Pipe::new(x) >> f >> g` applies `f`,
//! then `g`.
use vstd::prelude::*;
use core::ops::Shr;
use vstd::std_specs::ops::ShrSpecImpl;

verus! {

/// A value on its way through a pipeline of functions.
pub struct Pipe<T>(T);

impl<T> View for Pipe<T> {
    type V = T;

    /// The value in the pipe.
    closed spec fn view(&self) -> T {
        self.0
    }
}

impl<T> Pipe<T> {
    /// Starts a pipeline with `content`.
    pub fn new(content: T) -> (r: Pipe<T>)
        ensures
            r@ == content,
    {
        Pipe(content)
    }
}

impl<A, B, F> Shr<F> for Pipe<A> where F: FnOnce(A) -> B {
    type Output = Pipe<B>;

    /// Applies `func` to the value in the pipe.
    fn shr(self, func: F) -> (r: Pipe<B>)
        ensures
            call_ensures(func, (self@,), r@),
    {
        Pipe(func(self.0))
    }
}

impl<A, B, F> ShrSpecImpl<F> for Pipe<A> where F: FnOnce(A) -> B {
    open spec fn obeys_shr_spec() -> bool {
        false
    }

    open spec fn shr_req(self, rhs: F) -> bool {
        call_requires(rhs, (self@,))
    }

    open spec fn shr_spec(self, rhs: F) -> Pipe<B> {
        arbitrary()
    }
}

} // verus!
