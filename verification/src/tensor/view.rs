//! The mathematical model of a tensor, and what holds of it.

use vstd::prelude::*;
use vstd::arithmetic::div_mod::lemma_fundamental_div_mod_converse;
use crate::tensor::backend::matrix::{column, is_dot, is_matmul, lemma_position_to_cell, row};
use crate::tensor::backend::traits::Numeric;
use crate::tensor::shape::{
    flat_index, lemma_flat_index_2d, lemma_flat_index_in_bounds, lemma_flat_index_injective,
    lemma_shape_2d, shape_product, strides_fit, valid_index,
};

verus! {

/// What a tensor is, mathematically: its dimensions and its elements in
/// row-major order.
pub ghost struct TensorView<T> {
    pub shape: Seq<usize>,
    pub data: Seq<T>,
}

impl<T> TensorView<T> {
    /// The buffer holds one element for each position of the shape, and the
    /// strides of the shape are representable.
    pub open spec fn wf(self) -> bool {
        &&& self.data.len() == shape_product(self.shape)
        &&& strides_fit(self.shape)
    }

    /// The element that `indices` names.
    pub open spec fn get(self, indices: Seq<usize>) -> T
        recommends
            valid_index(self.shape, indices),
    {
        self.data[flat_index(self.shape, indices) as int]
    }

    /// The tensor with the element that `indices` names replaced by `value`.
    pub open spec fn set(self, indices: Seq<usize>, value: T) -> Self
        recommends
            valid_index(self.shape, indices),
    {
        TensorView {
            shape: self.shape,
            data: self.data.update(flat_index(self.shape, indices) as int, value),
        }
    }

    /// The same elements in the same order under the dimensions `shape`.
    pub open spec fn reshaped(self, shape: Seq<usize>) -> Self {
        TensorView { shape, data: self.data }
    }

    /// The transpose of a two-dimensional tensor: rows and columns change
    /// places, so the element in row `j` and column `i` of the result is the
    /// one in row `i` and column `j` of `self`.
    pub open spec fn transposed(self) -> Self
        recommends
            self.shape.len() == 2,
    {
        let rows = self.shape[0] as int;
        let columns = self.shape[1] as int;
        TensorView {
            shape: seq![self.shape[1], self.shape[0]],
            data: Seq::new(self.data.len(), |p: int| self.data[(p % rows) * columns + p / rows]),
        }
    }
}

/// Reshaping keeps the elements, their order and their number, and reshaping
/// back to the first shape gives the first tensor again.
pub proof fn lemma_reshape_round_trip<T>(tensor: TensorView<T>, shape: Seq<usize>)
    ensures
        tensor.reshaped(shape).data == tensor.data,
        tensor.reshaped(shape).reshaped(tensor.shape) == tensor,
        tensor.wf() && shape_product(shape) == tensor.data.len() && strides_fit(shape)
            ==> tensor.reshaped(shape).wf(),
{
}

/// After an element is set, it is read back at its own index, every element
/// at another index is read as before, and nothing else in the buffer has
/// changed.
pub proof fn lemma_set_then_get<T>(
    tensor: TensorView<T>,
    indices: Seq<usize>,
    value: T,
    other: Seq<usize>,
)
    requires
        tensor.wf(),
        valid_index(tensor.shape, indices),
        valid_index(tensor.shape, other),
    ensures
        tensor.set(indices, value).wf(),
        tensor.set(indices, value).get(indices) == value,
        other != indices ==> tensor.set(indices, value).get(other) == tensor.get(other),
        forall|p: int|
            0 <= p < tensor.data.len() && p != flat_index(tensor.shape, indices)
                ==> tensor.set(indices, value).data[p] == tensor.data[p],
{
    lemma_flat_index_in_bounds(tensor.shape, indices);
    lemma_flat_index_in_bounds(tensor.shape, other);
    if other != indices {
        if flat_index(tensor.shape, other) == flat_index(tensor.shape, indices) {
            lemma_flat_index_injective(tensor.shape, other, indices);
        }
    }
}

/// The transpose of a two-dimensional tensor holds, in row `j` and column `i`,
/// the element that the tensor holds in row `i` and column `j`.
pub proof fn lemma_transposed_element<T>(tensor: TensorView<T>, i: usize, j: usize)
    requires
        tensor.wf(),
        tensor.shape.len() == 2,
        i < tensor.shape[0],
        j < tensor.shape[1],
    ensures
        tensor.transposed().wf(),
        tensor.transposed().get(seq![j, i]) == tensor.get(seq![i, j]),
{
    let rows = tensor.shape[0] as int;
    let columns = tensor.shape[1] as int;
    let transposed = tensor.transposed();
    lemma_shape_2d(tensor.shape);
    lemma_shape_2d(transposed.shape);
    lemma_flat_index_2d(tensor.shape, seq![i, j]);
    lemma_flat_index_2d(transposed.shape, seq![j, i]);
    assert(rows * columns == columns * rows) by (nonlinear_arith);
    assert(0 <= j * rows + i < columns * rows) by (nonlinear_arith)
        requires
            0 <= i < rows,
            0 <= j < columns,
    ;
    lemma_fundamental_div_mod_converse(j * rows + i, rows, j as int, i as int);
}

/// Transposing a two-dimensional tensor twice gives the tensor again, shape
/// and elements.
pub proof fn lemma_transpose_involution<T>(tensor: TensorView<T>)
    requires
        tensor.wf(),
        tensor.shape.len() == 2,
    ensures
        tensor.transposed().transposed() == tensor,
{
    let rows = tensor.shape[0] as int;
    let columns = tensor.shape[1] as int;
    let once = tensor.transposed();
    let twice = once.transposed();
    lemma_shape_2d(tensor.shape);
    assert(twice.shape =~= tensor.shape);
    assert forall|p: int| 0 <= p < tensor.data.len() implies twice.data[p] == tensor.data[p] by {
        // `p` is row `i`, column `j` of the tensor, which the transpose holds at `q`
        lemma_position_to_cell(rows, columns, p);
        let i = p / columns;
        let j = p % columns;
        let q = j * rows + i;
        assert(0 <= q < columns * rows) by (nonlinear_arith)
            requires
                0 <= i < rows,
                0 <= j < columns,
                q == j * rows + i,
        ;
        assert(rows * columns == columns * rows) by (nonlinear_arith);
        lemma_fundamental_div_mod_converse(q, rows, j, i);
        assert(twice.data[p] == once.data[q]);
        assert(once.data[q] == tensor.data[i * columns + j]);
    }
    assert(twice.data =~= tensor.data);
}

/// In a matrix product of two-dimensional tensors, the element in row `i` and
/// column `j` is a dot product of row `i` of the first and column `j` of the
/// second.
pub proof fn lemma_matmul_element<T: Numeric>(
    a: TensorView<T>,
    b: TensorView<T>,
    c: TensorView<T>,
    i: usize,
    j: usize,
)
    requires
        a.shape.len() == 2,
        b.shape.len() == 2,
        c.shape == seq![a.shape[0], b.shape[1]],
        is_matmul(
            a.data,
            b.data,
            a.shape[0] as int,
            a.shape[1] as int,
            b.shape[1] as int,
            c.data,
        ),
        i < a.shape[0],
        j < b.shape[1],
    ensures
        is_dot(
            row(a.data, a.shape[1] as int, i as int),
            column(b.data, a.shape[1] as int, b.shape[1] as int, j as int),
            c.get(seq![i, j]),
        ),
{
    lemma_flat_index_2d(c.shape, seq![i, j]);
    let x = row(a.data, a.shape[1] as int, i as int);
    let y = column(b.data, a.shape[1] as int, b.shape[1] as int, j as int);
    assert(is_dot(x, y, c.data[i * b.shape[1] + j]));
}

} // verus!
