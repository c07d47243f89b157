//! The tensor: a shape, its strides and a flat row-major buffer, with the
//! arithmetic handed to a backend.

use vstd::prelude::*;
use vstd::slice::slice_to_vec;
use crate::tensor::backend::matrix::{is_matmul, lemma_cell_to_position, matmul_defined};
use crate::tensor::backend::traits::{
    Backend, Numeric, Operator, elementwise_defined, is_elementwise, is_one, is_zero,
};
use crate::tensor::view::TensorView;
use crate::tensor::shape::{
    flat_index, is_strides_of, lemma_flat_index_in_bounds, lemma_shape_2d,
    lemma_stride_recurrence, lemma_strides_of_fit, offset_from, shape_product, stride_at,
    strides_fit, valid_index,
};

verus! {

/// The whole of a vector as a mutable slice (`Vec::as_mut_slice`). The slice
/// starts out with the vector's elements, what is written through it is
/// written to the vector, and, a slice being of fixed size, neither changes
/// its length. The call does not unwind.
#[verifier::external_body]
fn buffer_mut<T>(buffer: &mut Vec<T>) -> (slice: &mut [T])
    ensures
        slice@ == old(buffer)@,
        final(slice)@ == final(buffer)@,
        final(slice)@.len() == slice@.len(),
    no_unwind
{
    buffer.as_mut_slice()
}

/// An n-dimensional array: a flat row-major buffer, the dimensions that give
/// it its shape, the strides that follow from them, and the backend that
/// computes on it.
pub struct Tensor<T: Numeric, B: Backend<T> + Clone> {
    data: Vec<T>,
    shape: Vec<usize>,
    strides: Vec<usize>,
    backend: B,
}

impl<T: Numeric, B: Backend<T> + Clone> View for Tensor<T, B> {
    type V = TensorView<T>;

    closed spec fn view(&self) -> TensorView<T> {
        TensorView { shape: self.shape@, data: self.data@ }
    }
}

impl<T: Numeric, B: Backend<T> + Clone> Tensor<T, B> {
    #[verifier::type_invariant]
    spec fn well_formed(self) -> bool {
        &&& self.data@.len() == shape_product(self.shape@)
        &&& is_strides_of(self.shape@, self.strides@)
    }

    /// The backend that the tensor computes with.
    pub closed spec fn backend(&self) -> B {
        self.backend
    }

    /// The row-major strides of `shape`: the last one is 1, and each other
    /// one is the next stride times the next dimension's size. They have to
    /// be representable, as they are wherever the element count is and no
    /// dimension is empty.
    pub fn compute_strides(shape: &[usize]) -> (strides: Vec<usize>)
        requires
            strides_fit(shape@),
        ensures
            is_strides_of(shape@, strides@),
            shape@.len() > 0 ==> strides@[shape@.len() - 1] == 1,
            forall|i: int|
                0 <= i < shape@.len() - 1 ==> #[trigger] strides@[i] == strides@[i + 1] * shape@[i
                    + 1],
    {
        let n: usize = shape.len();
        let mut strides: Vec<usize> = vec![1; n];
        if n > 0 {
            proof {
                lemma_stride_recurrence(shape@, n - 1);
            }
            let mut i: usize = n - 1;
            while i > 0
                invariant
                    n == shape@.len(),
                    strides@.len() == n,
                    i < n,
                    strides_fit(shape@),
                    forall|p: int|
                        i <= p < n ==> #[trigger] strides@[p] as nat == stride_at(shape@, p),
                decreases i,
            {
                i -= 1;
                proof {
                    lemma_stride_recurrence(shape@, i as int);
                    assert(stride_at(shape@, i as int) <= usize::MAX);
                    assert(strides@[i + 1] as nat == stride_at(shape@, i + 1));
                }
                let next: usize = strides[i + 1] * shape[i + 1];
                strides[i] = next;
            }
        }
        proof {
            assert forall|i: int| 0 <= i < shape@.len() - 1 implies #[trigger] strides@[i]
                == strides@[i + 1] * shape@[i + 1] by {
                lemma_stride_recurrence(shape@, i);
                assert(strides@[i + 1] as nat == stride_at(shape@, i + 1));
            }
        }
        strides
    }

    /// A tensor with the dimensions `shape` over a buffer that the backend
    /// allocates; what the buffer holds is up to the backend. The element
    /// count and the strides of the shape have to be representable.
    pub fn new(shape: &[usize], backend: B) -> (tensor: Self)
        requires
            shape_product(shape@) <= usize::MAX,
            strides_fit(shape@),
        ensures
            tensor@.shape == shape@,
            tensor.backend() == backend,
            tensor@.wf(),
    {
        let data = backend.allocate(shape);
        let strides = Self::compute_strides(shape);
        Tensor { data, shape: slice_to_vec(shape), strides, backend }
    }

    /// A tensor with the dimensions `shape`, every element zero.
    pub fn zeros(shape: &[usize], backend: B) -> (tensor: Self)
        requires
            shape_product(shape@) <= usize::MAX,
            strides_fit(shape@),
        ensures
            tensor@.shape == shape@,
            tensor.backend() == backend,
            tensor@.wf(),
            forall|i: int| 0 <= i < tensor@.data.len() ==> is_zero(#[trigger] tensor@.data[i]),
    {
        let data = backend.zeros(shape);
        let strides = Self::compute_strides(shape);
        Tensor { data, shape: slice_to_vec(shape), strides, backend }
    }

    /// A tensor with the dimensions `shape`, every element one.
    pub fn ones(shape: &[usize], backend: B) -> (tensor: Self)
        requires
            shape_product(shape@) <= usize::MAX,
            strides_fit(shape@),
        ensures
            tensor@.shape == shape@,
            tensor.backend() == backend,
            tensor@.wf(),
            forall|i: int| 0 <= i < tensor@.data.len() ==> is_one(#[trigger] tensor@.data[i]),
    {
        let data = backend.ones(shape);
        let strides = Self::compute_strides(shape);
        Tensor { data, shape: slice_to_vec(shape), strides, backend }
    }

    /// The tensor with the dimensions `shape` over the row-major buffer
    /// `data`, which holds one element for each position of the shape.
    pub fn from_data(data: Vec<T>, shape: &[usize], backend: B) -> (tensor: Self)
        requires
            data@.len() == shape_product(shape@),
            strides_fit(shape@),
        ensures
            tensor@ == (TensorView { shape: shape@, data: data@ }),
            tensor@.wf(),
            tensor.backend() == backend,
    {
        let strides = Self::compute_strides(shape);
        Tensor { data, shape: slice_to_vec(shape), strides, backend }
    }

    /// The dimensions.
    pub fn shape(&self) -> (shape: &[usize])
        ensures
            shape@ == self@.shape,
            self@.wf(),
    {
        proof {
            use_type_invariant(self);
            lemma_strides_of_fit(self.shape@, self.strides@);
        }
        self.shape.as_slice()
    }

    /// The row-major strides of the dimensions.
    pub fn strides(&self) -> (strides: &[usize])
        ensures
            is_strides_of(self@.shape, strides@),
    {
        proof {
            use_type_invariant(self);
        }
        self.strides.as_slice()
    }

    /// The number of elements.
    pub fn size(&self) -> (size: usize)
        ensures
            size == self@.data.len(),
            size == shape_product(self@.shape),
    {
        proof {
            use_type_invariant(self);
        }
        self.data.len()
    }

    /// The number of dimensions.
    pub fn ndim(&self) -> (ndim: usize)
        ensures
            ndim == self@.shape.len(),
    {
        self.shape.len()
    }

    /// The elements in row-major order.
    pub fn data(&self) -> (data: &[T])
        ensures
            data@ == self@.data,
            self@.wf(),
    {
        proof {
            use_type_invariant(self);
            lemma_strides_of_fit(self.shape@, self.strides@);
        }
        self.data.as_slice()
    }

    /// The elements in row-major order, open to change. The buffer keeps its
    /// length, and the tensor its shape.
    pub fn data_mut(&mut self) -> (data: &mut [T])
        ensures
            data@ == old(self)@.data,
            final(self)@.shape == old(self)@.shape,
            final(self)@.data == final(data)@,
            final(data)@.len() == data@.len(),
            final(self)@.wf(),
            final(self).backend() == old(self).backend(),
    {
        proof {
            use_type_invariant(&*self);
            lemma_strides_of_fit(self.shape@, self.strides@);
        }
        buffer_mut(&mut self.data)
    }

    /// A tensor with the same elements in the same order under the
    /// dimensions `new_shape`, which name as many elements as `self` has. The
    /// result has a buffer of its own.
    pub fn reshape(&self, new_shape: &[usize]) -> (reshaped: Self)
        requires
            shape_product(new_shape@) == self@.data.len(),
            strides_fit(new_shape@),
        ensures
            reshaped@ == self@.reshaped(new_shape@),
            reshaped@.wf(),
            cloned(self.backend(), reshaped.backend()),
    {
        Self::from_data(slice_to_vec(self.data.as_slice()), new_shape, self.backend.clone())
    }

    /// The position in the buffer of the element that `indices` names: the
    /// sum of each coordinate times the stride of its dimension.
    pub fn get_flat_index(&self, indices: &[usize]) -> (flat: usize)
        requires
            valid_index(self@.shape, indices@),
        ensures
            flat == flat_index(self@.shape, indices@),
            flat < self@.data.len(),
    {
        proof {
            use_type_invariant(self);
            lemma_flat_index_in_bounds(self.shape@, indices@);
            assert(self.data@.len() == self.data.len());
        }
        let mut flat: usize = 0;
        let mut i: usize = 0;
        while i < indices.len()
            invariant
                i <= indices@.len(),
                indices@.len() == self.shape@.len(),
                is_strides_of(self.shape@, self.strides@),
                flat + offset_from(self.shape@, indices@, i as int) == flat_index(
                    self.shape@,
                    indices@,
                ),
                flat_index(self.shape@, indices@) < self.data@.len() <= usize::MAX,
            decreases indices@.len() - i,
        {
            proof {
                assert(self.strides@[i as int] as nat == stride_at(self.shape@, i as int));
                assert(offset_from(self.shape@, indices@, i as int) == indices@[i as int] as nat
                    * stride_at(self.shape@, i as int) + offset_from(
                    self.shape@,
                    indices@,
                    i + 1,
                ));
            }
            flat = flat + indices[i] * self.strides[i];
            i += 1;
        }
        flat
    }

    /// The elementwise sum of two tensors of the same shape.
    pub fn add(&self, other: &Self) -> (sum: Self)
        requires
            self@.shape == other@.shape,
            elementwise_defined(Operator::Add, self@.data, other@.data),
        ensures
            sum@.shape == self@.shape,
            sum@.wf(),
            cloned(self.backend(), sum.backend()),
            is_elementwise(Operator::Add, self@.data, other@.data, sum@.data),
    {
        proof {
            use_type_invariant(self);
            use_type_invariant(other);
            lemma_strides_of_fit(self.shape@, self.strides@);
        }
        let data = self.backend.add(self.data.as_slice(), other.data.as_slice());
        Self::from_data(data, self.shape.as_slice(), self.backend.clone())
    }

    /// The elementwise difference of two tensors of the same shape.
    pub fn sub(&self, other: &Self) -> (difference: Self)
        requires
            self@.shape == other@.shape,
            elementwise_defined(Operator::Sub, self@.data, other@.data),
        ensures
            difference@.shape == self@.shape,
            difference@.wf(),
            cloned(self.backend(), difference.backend()),
            is_elementwise(Operator::Sub, self@.data, other@.data, difference@.data),
    {
        proof {
            use_type_invariant(self);
            use_type_invariant(other);
            lemma_strides_of_fit(self.shape@, self.strides@);
        }
        let data = self.backend.sub(self.data.as_slice(), other.data.as_slice());
        Self::from_data(data, self.shape.as_slice(), self.backend.clone())
    }

    /// The elementwise product of two tensors of the same shape.
    pub fn mul(&self, other: &Self) -> (product: Self)
        requires
            self@.shape == other@.shape,
            elementwise_defined(Operator::Mul, self@.data, other@.data),
        ensures
            product@.shape == self@.shape,
            product@.wf(),
            cloned(self.backend(), product.backend()),
            is_elementwise(Operator::Mul, self@.data, other@.data, product@.data),
    {
        proof {
            use_type_invariant(self);
            use_type_invariant(other);
            lemma_strides_of_fit(self.shape@, self.strides@);
        }
        let data = self.backend.mul(self.data.as_slice(), other.data.as_slice());
        Self::from_data(data, self.shape.as_slice(), self.backend.clone())
    }

    /// The elementwise quotient of two tensors of the same shape.
    pub fn div(&self, other: &Self) -> (quotient: Self)
        requires
            self@.shape == other@.shape,
            elementwise_defined(Operator::Div, self@.data, other@.data),
        ensures
            quotient@.shape == self@.shape,
            quotient@.wf(),
            cloned(self.backend(), quotient.backend()),
            is_elementwise(Operator::Div, self@.data, other@.data, quotient@.data),
    {
        proof {
            use_type_invariant(self);
            use_type_invariant(other);
            lemma_strides_of_fit(self.shape@, self.strides@);
        }
        let data = self.backend.div(self.data.as_slice(), other.data.as_slice());
        Self::from_data(data, self.shape.as_slice(), self.backend.clone())
    }

    /// The matrix product of two two-dimensional tensors, the first with as
    /// many columns as the second has rows. The result has the rows of the
    /// first and the columns of the second.
    pub fn matmul(&self, other: &Self) -> (product: Self)
        requires
            self@.shape.len() == 2,
            other@.shape.len() == 2,
            self@.shape[1] == other@.shape[0],
            self@.shape[0] * other@.shape[1] <= usize::MAX,
            matmul_defined(
                self@.data,
                other@.data,
                self@.shape[0] as int,
                self@.shape[1] as int,
                other@.shape[1] as int,
            ),
        ensures
            product@.shape == seq![self@.shape[0], other@.shape[1]],
            product@.wf(),
            cloned(self.backend(), product.backend()),
            is_matmul(
                self@.data,
                other@.data,
                self@.shape[0] as int,
                self@.shape[1] as int,
                other@.shape[1] as int,
                product@.data,
            ),
    {
        proof {
            use_type_invariant(self);
            use_type_invariant(other);
            lemma_shape_2d(self.shape@);
            lemma_shape_2d(other.shape@);
        }
        let result_shape = vec![self.shape[0], other.shape[1]];
        let data = self.backend.matmul(
            self.data.as_slice(),
            self.shape.as_slice(),
            other.data.as_slice(),
            other.shape.as_slice(),
        );
        proof {
            assert(result_shape@ =~= seq![self.shape@[0], other.shape@[1]]);
            lemma_shape_2d(result_shape@);
        }
        Self::from_data(data, result_shape.as_slice(), self.backend.clone())
    }

    /// The element that `indices` names.
    pub fn get(&self, indices: &[usize]) -> (value: T)
        requires
            valid_index(self@.shape, indices@),
        ensures
            value == self@.get(indices@),
    {
        let flat: usize = self.get_flat_index(indices);
        self.data[flat]
    }

    /// Replaces the element that `indices` names by `value`; every other
    /// element stays as it is.
    pub fn set(&mut self, indices: &[usize], value: T)
        requires
            valid_index(old(self)@.shape, indices@),
        ensures
            final(self)@ == old(self)@.set(indices@, value),
            final(self)@.wf(),
            final(self).backend() == old(self).backend(),
    {
        proof {
            use_type_invariant(&*self);
            lemma_strides_of_fit(self.shape@, self.strides@);
        }
        let flat: usize = self.get_flat_index(indices);
        self.data[flat] = value;
    }

    /// The transpose of a two-dimensional tensor, over a buffer of its own.
    pub fn transpose(&self) -> (transposed: Self)
        requires
            self@.shape.len() == 2,
        ensures
            transposed@ == self@.transposed(),
            transposed@.wf(),
            cloned(self.backend(), transposed.backend()),
    {
        proof {
            use_type_invariant(self);
            lemma_shape_2d(self.shape@);
        }
        let rows: usize = self.shape[0];
        let columns: usize = self.shape[1];
        let new_shape = vec![columns, rows];
        let size: usize = self.data.len();
        let mut data: Vec<T> = Vec::with_capacity(size);
        let mut j: usize = 0;
        while j < columns
            invariant
                j <= columns,
                size == rows * columns,
                self.data@.len() == rows * columns,
                data@.len() == j * rows,
                forall|p: int|
                    0 <= p < data@.len() ==> #[trigger] data@[p] == self.data@[(p % rows as int)
                        * columns + p / rows as int],
            decreases columns - j,
        {
            let mut i: usize = 0;
            while i < rows
                invariant
                    i <= rows,
                    j < columns,
                    size == rows * columns,
                    self.data@.len() == rows * columns,
                    data@.len() == j * rows + i,
                    forall|p: int|
                        0 <= p < data@.len() ==> #[trigger] data@[p] == self.data@[(p
                            % rows as int) * columns + p / rows as int],
                decreases rows - i,
            {
                proof {
                    lemma_cell_to_position(rows as int, j as int, i as int);
                    assert(i * columns + j < rows * columns) by (nonlinear_arith)
                        requires
                            i < rows,
                            j < columns,
                    ;
                    assert(0 <= i * columns) by (nonlinear_arith);
                    assert(j * rows + i + 1 <= (j + 1) * rows) by (nonlinear_arith)
                        requires
                            i < rows,
                    ;
                }
                data.push(self.data[i * columns + j]);
                i += 1;
            }
            proof {
                assert(j * rows + rows == (j + 1) * rows) by (nonlinear_arith);
            }
            j += 1;
        }
        proof {
            assert(columns * rows == rows * columns) by (nonlinear_arith);
            assert(new_shape@ =~= seq![self.shape@[1], self.shape@[0]]);
            lemma_shape_2d(new_shape@);
            assert(data@ =~= self@.transposed().data);
        }
        Self::from_data(data, new_shape.as_slice(), self.backend.clone())
    }
}

impl<T: Numeric, B: Backend<T> + Clone> Clone for Tensor<T, B> {
    /// A tensor with the same shape and the same elements over a buffer of
    /// its own.
    fn clone(&self) -> (copy: Self)
        ensures
            copy@ == self@,
            cloned(self.backend(), copy.backend()),
    {
        proof {
            use_type_invariant(self);
        }
        Tensor {
            data: slice_to_vec(self.data.as_slice()),
            shape: slice_to_vec(self.shape.as_slice()),
            strides: slice_to_vec(self.strides.as_slice()),
            backend: self.backend.clone(),
        }
    }
}

} // verus!
