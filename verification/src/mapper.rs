//! Chained composition: a noise source with an ordered, growable list
//! of output transforms applied in registration order.

use vstd::prelude::*;
use crate::noise::{Noise, Transform};
use crate::mapped::Mapped;

verus! {

/// The first `k` transforms of the list applied, in order, to `v`.
pub open spec fn applied<T: Transform<Out = <T as Transform>::In>>(
    fs: Seq<T>, v: <T as Transform>::In, k: int,
) -> <T as Transform>::In
    decreases k,
{
    if k <= 0 {
        v
    } else {
        fs[k - 1].spec_apply(applied(fs, v, k - 1))
    }
}

/// A noise source with a chain of output transforms: sampling returns
/// `f_n(... f_1(source.get(input)))` in registration order.
/// Registering another transform is the only mutation.
pub struct Mapper<N, T> {
    pub source: N,
    pub functions: Vec<T>,
}

impl<N: Noise, T: Transform<In = N::Output, Out = N::Output>> Mapper<N, T> {
    /// Wraps a source with an empty transform chain.
    pub fn new(source: N) -> (r: Mapper<N, T>)
        ensures
            r.source == source,
            r.functions@.len() == 0,
    {
        Mapper { source, functions: Vec::new() }
    }

    /// Appends a transform to the chain.
    pub fn add_custom(&mut self, function: T)
        ensures
            final(self).source == old(self).source,
            final(self).functions@ == old(self).functions@.push(function),
    {
        self.functions.push(function);
    }
}

impl<N: Noise, T: Transform<In = N::Output, Out = N::Output>> Noise for Mapper<N, T> {
    type Input = N::Input;

    type Output = N::Output;

    open spec fn wf(&self) -> bool {
        self.source.wf()
    }

    open spec fn spec_get(&self, input: N::Input) -> N::Output {
        applied(self.functions@, self.source.spec_get(input), self.functions@.len() as int)
    }

    fn get(&self, input: N::Input) -> (r: N::Output) {
        let ghost fs = self.functions@;
        let mut value = self.source.get(input);
        let mut k: usize = 0;
        while k < self.functions.len()
            invariant
                fs == self.functions@,
                0 <= k <= fs.len(),
                value == applied(fs, self.source.spec_get(input), k as int),
            decreases fs.len() - k,
        {
            value = self.functions[k].apply(value);
            k = k + 1;
        }
        value
    }
}

/// The chain law: a mapper with two registered transforms samples
/// exactly like the source wrapped twice, inner transform first.
pub proof fn lemma_mapper_two_transforms<N: Noise, T: Transform<In = N::Output, Out = N::Output>>(
    m: Mapper<N, T>, w: Mapped<Mapped<N, T>, T>, input: N::Input,
)
    requires
        m.functions@.len() == 2,
        w.source.source == m.source,
        w.source.f == m.functions@[0],
        w.f == m.functions@[1],
    ensures
        m.spec_get(input) == w.spec_get(input),
{
    let v0 = m.source.spec_get(input);
    assert(applied(m.functions@, v0, 0) == v0);
    assert(applied(m.functions@, v0, 1) == m.functions@[0].spec_apply(v0));
    assert(applied(m.functions@, v0, 2)
        == m.functions@[1].spec_apply(m.functions@[0].spec_apply(v0)));
}

} // verus!
