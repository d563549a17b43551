//! The abstract sampling contracts: every noise source maps an input
//! coordinate to an output value, purely and deterministically, and
//! every transform maps an output value to another.

use vstd::prelude::*;
use crate::mapped::Mapped;

verus! {

/// The capability every noise source and combinator implements: given
/// an input coordinate of the source's fixed arity, produce an output
/// value. `get` is pure: it returns exactly `spec_get` of its input,
/// so repeated calls on an unchanged source agree.
pub trait Noise {
    type Input;

    type Output;

    /// Well-formedness of the source (established by its constructor).
    spec fn wf(&self) -> bool;

    /// The value the source assigns to an input.
    spec fn spec_get(&self, input: Self::Input) -> Self::Output;

    fn get(&self, input: Self::Input) -> (r: Self::Output)
        requires
            self.wf(),
        ensures
            r == self.spec_get(input),
    ;

    /// Wraps the source with one output transform.
    fn map<F: Transform<In = Self::Output>>(self, f: F) -> (r: Mapped<Self, F>) where
        Self: Sized
        ensures
            r.source == self,
            r.f == f,
    {
        Mapped { source: self, f }
    }
}

/// A pure output-to-output function that can be registered on the
/// composition layer: `apply` returns exactly `spec_apply` of its
/// argument.
pub trait Transform {
    type In;

    type Out;

    /// The value the transform assigns to an input.
    spec fn spec_apply(&self, v: Self::In) -> Self::Out;

    fn apply(&self, v: Self::In) -> (r: Self::Out)
        ensures
            r == self.spec_apply(v),
    ;
}

} // verus!
