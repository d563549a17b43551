//! Single-function composition: a noise source with one transform
//! applied to its output.

use vstd::prelude::*;
use crate::noise::{Noise, Transform};

verus! {

/// A noise source wrapped with one output transform: sampling returns
/// `f(source.get(input))`. The wrapped source is never mutated.
pub struct Mapped<N, F> {
    pub source: N,
    pub f: F,
}

impl<N: Noise, F: Transform<In = N::Output>> Mapped<N, F> {
    /// Wraps a source with a transform.
    pub fn new(source: N, f: F) -> (r: Mapped<N, F>)
        ensures
            r.source == source,
            r.f == f,
    {
        Mapped { source, f }
    }
}

impl<N: Noise, F: Transform<In = N::Output>> Noise for Mapped<N, F> {
    type Input = N::Input;

    type Output = F::Out;

    open spec fn wf(&self) -> bool {
        self.source.wf()
    }

    open spec fn spec_get(&self, input: N::Input) -> F::Out {
        self.f.spec_apply(self.source.spec_get(input))
    }

    fn get(&self, input: N::Input) -> (r: F::Out) {
        self.f.apply(self.source.get(input))
    }
}

/// The composition law: sampling a wrapped source applies the
/// transform to what the inner source returns, for every input.
pub proof fn lemma_map_composition<N: Noise, F: Transform<In = N::Output>>(
    m: Mapped<N, F>, input: N::Input,
)
    ensures
        m.spec_get(input) == m.f.spec_apply(m.source.spec_get(input)),
{
}

} // verus!
