//! Element-wise activation functions for the forward pass.

use vstd::prelude::*;

verus! {

/// An activation function, applied element-wise after each layer's linear
/// transform.
#[derive(Clone, Copy, Debug)]
pub enum Activation {
    /// The rectified linear unit: `relu(x) = max(x, 0)`.
    Relu,
    /// The identity function, the neutral activation.
    Identity,
}

/// The value of the rectified linear unit at `x`.
pub open spec fn relu_val(x: int) -> int {
    if x > 0 {
        x
    } else {
        0
    }
}

/// The value of the activation function `a` at `x`.
pub open spec fn act_val(a: Activation, x: int) -> int {
    match a {
        Activation::Relu => relu_val(x),
        Activation::Identity => x,
    }
}

/// Rectified linear unit: `max(x, 0)`.
pub fn relu(x: i64) -> (r: i64)
    ensures
        r as int == relu_val(x as int),
{
    if x > 0 {
        x
    } else {
        0
    }
}

impl Activation {
    /// Applies the activation function to one value.
    pub fn apply(self, x: i64) -> (r: i64)
        ensures
            r as int == act_val(self, x as int),
    {
        match self {
            Activation::Relu => relu(x),
            Activation::Identity => x,
        }
    }
}

} // verus!
