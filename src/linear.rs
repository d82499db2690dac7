use vstd::prelude::*;

verus! {

/// Weights drawn uniformly from `min..max`.
#[derive(Debug)]
pub struct RandomUniform<T> {
    pub min: T,
    pub max: T,
}

impl<T> RandomUniform<T> {
    pub fn new(min: T, max: T) -> (r: RandomUniform<T>)
        ensures
            r.min == min,
            r.max == max,
    {
        RandomUniform { min, max }
    }
}

/// Weights drawn uniformly from `-b..b` with `b = sqrt(6 / (inputs + outputs))`.
#[derive(Debug, Clone, Copy, PartialEq, Eq, Structural)]
pub struct Glorot;

impl Glorot {
    pub fn new() -> (r: Glorot)
        ensures
            r == Glorot,
    {
        Glorot
    }
}

/// Whether a linear layer has a bias row.
#[derive(Debug, Clone, Copy, PartialEq, Eq, Structural)]
pub struct Bias(pub bool);

/// The strength of a linear layer's L2 regularisation.
#[derive(Debug)]
pub struct L2<T>(pub T);

/// L2 regularisation with its strength `l2` and the penalty `loss` that
/// the layer adds up during a pass.
#[derive(Debug)]
pub struct L2Reg<T> {
    pub l2: T,
    pub loss: T,
}

impl<T: Default> L2Reg<T> {
    /// Strength `l2`, with the accumulated penalty at `T`'s default.
    pub fn new(l2: T) -> (r: L2Reg<T>)
        ensures
            r.l2 == l2,
            call_ensures(T::default, (), r.loss),
    {
        L2Reg { l2, loss: T::default() }
    }

    /// Clears the accumulated penalty, keeping the strength.
    pub fn zero(&mut self)
        ensures
            final(self).l2 == old(self).l2,
            call_ensures(T::default, (), final(self).loss),
    {
        self.loss = T::default();
    }
}

} // verus!
