//! The operators `+`, `-`, `*` and `/` on tensor references: each is the
//! tensor method of the same name and gives a tensor of its own.

use vstd::prelude::*;
use vstd::std_specs::ops::{AddSpecImpl, DivSpecImpl, MulSpecImpl, SubSpecImpl};
use crate::tensor::backend::traits::{
    Backend, Numeric, Operator, elementwise_defined, is_elementwise,
};
use crate::tensor::tensor::Tensor;

verus! {

impl<'a, T: Numeric, B: Backend<T> + Clone> std::ops::Add for &'a Tensor<T, B> {
    type Output = Tensor<T, B>;

    /// `&a + &b` is `a.add(&b)`.
    fn add(self, other: Self) -> (sum: Tensor<T, B>)
        ensures
            sum@.shape == self@.shape,
            is_elementwise(Operator::Add, self@.data, other@.data, sum@.data),
    {
        self.add(other)
    }
}

impl<'a, T: Numeric, B: Backend<T> + Clone> AddSpecImpl for &'a Tensor<T, B> {
    /// The result is one of the values that the contract admits, not a
    /// function of the operands: the element type need not be deterministic.
    open spec fn obeys_add_spec() -> bool {
        false
    }

    open spec fn add_req(self, other: Self) -> bool {
        &&& self@.shape == other@.shape
        &&& elementwise_defined(Operator::Add, self@.data, other@.data)
    }

    open spec fn add_spec(self, other: Self) -> Tensor<T, B> {
        arbitrary()
    }
}

impl<'a, T: Numeric, B: Backend<T> + Clone> std::ops::Sub for &'a Tensor<T, B> {
    type Output = Tensor<T, B>;

    /// `&a - &b` is `a.sub(&b)`.
    fn sub(self, other: Self) -> (difference: Tensor<T, B>)
        ensures
            difference@.shape == self@.shape,
            is_elementwise(Operator::Sub, self@.data, other@.data, difference@.data),
    {
        self.sub(other)
    }
}

impl<'a, T: Numeric, B: Backend<T> + Clone> SubSpecImpl for &'a Tensor<T, B> {
    /// The result is one of the values that the contract admits, not a
    /// function of the operands: the element type need not be deterministic.
    open spec fn obeys_sub_spec() -> bool {
        false
    }

    open spec fn sub_req(self, other: Self) -> bool {
        &&& self@.shape == other@.shape
        &&& elementwise_defined(Operator::Sub, self@.data, other@.data)
    }

    open spec fn sub_spec(self, other: Self) -> Tensor<T, B> {
        arbitrary()
    }
}

impl<'a, T: Numeric, B: Backend<T> + Clone> std::ops::Mul for &'a Tensor<T, B> {
    type Output = Tensor<T, B>;

    /// `&a * &b` is `a.mul(&b)`.
    fn mul(self, other: Self) -> (product: Tensor<T, B>)
        ensures
            product@.shape == self@.shape,
            is_elementwise(Operator::Mul, self@.data, other@.data, product@.data),
    {
        self.mul(other)
    }
}

impl<'a, T: Numeric, B: Backend<T> + Clone> MulSpecImpl for &'a Tensor<T, B> {
    /// The result is one of the values that the contract admits, not a
    /// function of the operands: the element type need not be deterministic.
    open spec fn obeys_mul_spec() -> bool {
        false
    }

    open spec fn mul_req(self, other: Self) -> bool {
        &&& self@.shape == other@.shape
        &&& elementwise_defined(Operator::Mul, self@.data, other@.data)
    }

    open spec fn mul_spec(self, other: Self) -> Tensor<T, B> {
        arbitrary()
    }
}

impl<'a, T: Numeric, B: Backend<T> + Clone> std::ops::Div for &'a Tensor<T, B> {
    type Output = Tensor<T, B>;

    /// `&a / &b` is `a.div(&b)`.
    fn div(self, other: Self) -> (quotient: Tensor<T, B>)
        ensures
            quotient@.shape == self@.shape,
            is_elementwise(Operator::Div, self@.data, other@.data, quotient@.data),
    {
        self.div(other)
    }
}

impl<'a, T: Numeric, B: Backend<T> + Clone> DivSpecImpl for &'a Tensor<T, B> {
    /// The result is one of the values that the contract admits, not a
    /// function of the operands: the element type need not be deterministic.
    open spec fn obeys_div_spec() -> bool {
        false
    }

    open spec fn div_req(self, other: Self) -> bool {
        &&& self@.shape == other@.shape
        &&& elementwise_defined(Operator::Div, self@.data, other@.data)
    }

    open spec fn div_spec(self, other: Self) -> Tensor<T, B> {
        arbitrary()
    }
}

} // verus!
