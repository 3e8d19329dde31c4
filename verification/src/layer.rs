//! One fully-connected transformation: a weight matrix and a bias row
//! vector.

use vstd::prelude::*;
use crate::matrix::Matrix;

verus! {

/// A fully-connected layer under the row-vector convention: a row vector of
/// values is multiplied on the right by `weights`, then `bias` is added.
/// `weights` has shape `(input_width, output_width)` and `bias` has shape
/// `(1, output_width)`.
#[derive(Debug)]
pub struct Layer {
    pub weights: Matrix,
    pub bias: Matrix,
}

impl Layer {
    /// Both matrices are well formed, and the bias is a row vector as wide
    /// as the weight matrix.
    pub open spec fn wf(self) -> bool {
        &&& self.weights.wf()
        &&& self.bias.wf()
        &&& self.bias.rows == 1
        &&& self.bias.cols == self.weights.cols
    }

    /// The width of the row vectors the layer accepts.
    pub open spec fn input_width(self) -> int {
        self.weights.rows as int
    }

    /// The width of the row vectors the layer produces.
    pub open spec fn output_width(self) -> int {
        self.weights.cols as int
    }

    /// Every weight and every bias entry is zero.
    pub open spec fn all_zero(self) -> bool {
        &&& forall|i: int, j: int|
            0 <= i < self.weights.rows && 0 <= j < self.weights.cols
                ==> #[trigger] self.weights@.ent(i, j) == 0
        &&& forall|j: int| 0 <= j < self.bias.cols ==> #[trigger] self.bias@.ent(0, j) == 0
    }

    /// Allocates a zero weight matrix of shape `(input_width, output_width)`
    /// and a zero bias of shape `(1, output_width)`. No randomization happens
    /// at construction; the caller randomizes at network level before use.
    pub fn new(output_width: usize, input_width: usize) -> (r: Layer)
        requires
            input_width * output_width <= usize::MAX,
        ensures
            r.wf(),
            r.weights.rows == input_width,
            r.weights.cols == output_width,
            r.bias.rows == 1,
            r.bias.cols == output_width,
            r.all_zero(),
    {
        Layer { weights: Matrix::new(input_width, output_width), bias: Matrix::new(1, output_width) }
    }
}

} // verus!
