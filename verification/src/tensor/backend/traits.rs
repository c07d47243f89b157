//! The element contract and the backend interface.

use vstd::prelude::*;
use vstd::std_specs::ops::{AddSpec, DivSpec, MulSpec, SubSpec};
use crate::tensor::backend::matrix::{is_matmul, matmul_defined};
use crate::tensor::shape::shape_product;

verus! {

/// What a tensor element has to offer: it is copied freely, has a default
/// value that serves as zero, is made from a `u8` to give the value one,
/// supports the four arithmetic operators, and may be shared between workers.
pub trait Numeric:
    Clone + Copy + Default + From<u8> + std::fmt::Debug + Send + Sync
    + std::ops::Add<Output = Self>
    + std::ops::Sub<Output = Self>
    + std::ops::Mul<Output = Self>
    + std::ops::Div<Output = Self>
{}

impl<T> Numeric for T where
    T: Clone + Copy + Default + From<u8> + std::fmt::Debug + Send + Sync
    + std::ops::Add<Output = T>
    + std::ops::Sub<Output = T>
    + std::ops::Mul<Output = T>
    + std::ops::Div<Output = T>
{}

/// The four arithmetic operators of an element type.
pub ghost enum Operator {
    Add,
    Sub,
    Mul,
    Div,
}

/// `z` is a value that `T::default()` returns: the element type's zero.
pub open spec fn is_zero<T: Numeric>(z: T) -> bool {
    call_ensures(<T as Default>::default, (), z)
}

/// `o` is a value that `T::from(1u8)` returns: the element type's one.
pub open spec fn is_one<T: Numeric>(o: T) -> bool {
    call_ensures(<T as From<u8>>::from, (1u8,), o)
}

/// The element type accepts the operands: `x op y` may be evaluated. For the
/// primitive integers this rules out overflow and division by zero.
pub open spec fn defined<T: Numeric>(op: Operator, x: T, y: T) -> bool {
    match op {
        Operator::Add => call_requires(<T as std::ops::Add>::add, (x, y)),
        Operator::Sub => call_requires(<T as std::ops::Sub>::sub, (x, y)),
        Operator::Mul => call_requires(<T as std::ops::Mul>::mul, (x, y)),
        Operator::Div => call_requires(<T as std::ops::Div>::div, (x, y)),
    }
}

/// `r` is a value that `x op y` evaluates to.
pub open spec fn is_result<T: Numeric>(op: Operator, x: T, y: T, r: T) -> bool {
    match op {
        Operator::Add => call_ensures(<T as std::ops::Add>::add, (x, y), r),
        Operator::Sub => call_ensures(<T as std::ops::Sub>::sub, (x, y), r),
        Operator::Mul => call_ensures(<T as std::ops::Mul>::mul, (x, y), r),
        Operator::Div => call_ensures(<T as std::ops::Div>::div, (x, y), r),
    }
}

/// `op` may be applied to every pair of corresponding elements of `a` and `b`.
pub open spec fn elementwise_defined<T: Numeric>(op: Operator, a: Seq<T>, b: Seq<T>) -> bool {
    forall|i: int| 0 <= i < a.len() ==> defined(op, #[trigger] a[i], b[i])
}

/// `r` is `a op b`, element by element: it is as long as `a`, and each of its
/// elements is a value of `a[i] op b[i]`.
pub open spec fn is_elementwise<T: Numeric>(op: Operator, a: Seq<T>, b: Seq<T>, r: Seq<T>) -> bool {
    &&& r.len() == a.len()
    &&& forall|i: int| 0 <= i < a.len() ==> is_result(op, a[i], b[i], #[trigger] r[i])
}

/// The zero of the element type is one value.
pub open spec fn zero_is_unique<T: Numeric>() -> bool {
    forall|first: T, second: T| #[trigger]
        is_zero(first) && #[trigger] is_zero(second) ==> first == second
}

/// Each operator of the element type returns one value for each pair of
/// operands.
pub open spec fn operators_are_functional<T: Numeric>() -> bool {
    forall|op: Operator, x: T, y: T, first: T, second: T| #[trigger]
        is_result(op, x, y, first) && #[trigger] is_result(op, x, y, second) ==> first == second
}

/// The arithmetic of the element type is that of functions: one zero, and
/// one result for each operator and each pair of operands.
pub open spec fn arithmetic_is_functional<T: Numeric>() -> bool {
    zero_is_unique::<T>() && operators_are_functional::<T>()
}

/// Where an operator of the element type has a specification that it obeys,
/// a result of the operator is the value that the specification gives. For
/// the primitive integers, within their range, that is the sum, difference,
/// product or quotient of the integers.
pub proof fn lemma_result_obeys_specification<T: Numeric>(op: Operator, x: T, y: T, r: T)
    requires
        is_result(op, x, y, r),
    ensures
        op is Add && T::obeys_add_spec() ==> r == x.add_spec(y),
        op is Sub && T::obeys_sub_spec() ==> r == x.sub_spec(y),
        op is Mul && T::obeys_mul_spec() ==> r == x.mul_spec(y),
        op is Div && T::obeys_div_spec() ==> r == x.div_spec(y),
{
}

/// Operators that obey their specifications are functional.
pub proof fn lemma_obeying_operators_are_functional<T: Numeric>()
    requires
        T::obeys_add_spec(),
        T::obeys_sub_spec(),
        T::obeys_mul_spec(),
        T::obeys_div_spec(),
    ensures
        operators_are_functional::<T>(),
{
    assert forall|op: Operator, x: T, y: T, first: T, second: T| #[trigger]
        is_result(op, x, y, first) && #[trigger] is_result(op, x, y, second) implies first
        == second by {
        lemma_result_obeys_specification(op, x, y, first);
        lemma_result_obeys_specification(op, x, y, second);
    }
}

/// A stateless compute policy over flat row-major buffers and their shapes.
/// Every operation returns a new buffer and leaves its operands as they are.
pub trait Backend<T: Numeric> {
    /// A buffer for an array with the dimensions `shape`; what it holds is
    /// up to the backend.
    fn allocate(&self, shape: &[usize]) -> (buffer: Vec<T>)
        requires
            shape_product(shape@) <= usize::MAX,
        ensures
            buffer@.len() == shape_product(shape@),
    ;

    /// A buffer for an array with the dimensions `shape`, filled with zero.
    fn zeros(&self, shape: &[usize]) -> (buffer: Vec<T>)
        requires
            shape_product(shape@) <= usize::MAX,
        ensures
            buffer@.len() == shape_product(shape@),
            forall|i: int| 0 <= i < buffer@.len() ==> is_zero(#[trigger] buffer@[i]),
    ;

    /// A buffer for an array with the dimensions `shape`, filled with one.
    fn ones(&self, shape: &[usize]) -> (buffer: Vec<T>)
        requires
            shape_product(shape@) <= usize::MAX,
        ensures
            buffer@.len() == shape_product(shape@),
            forall|i: int| 0 <= i < buffer@.len() ==> is_one(#[trigger] buffer@[i]),
    ;

    /// The elementwise sum of two buffers of equal length.
    fn add(&self, a: &[T], b: &[T]) -> (r: Vec<T>)
        requires
            a@.len() == b@.len(),
            elementwise_defined(Operator::Add, a@, b@),
        ensures
            is_elementwise(Operator::Add, a@, b@, r@),
    ;

    /// The elementwise difference of two buffers of equal length.
    fn sub(&self, a: &[T], b: &[T]) -> (r: Vec<T>)
        requires
            a@.len() == b@.len(),
            elementwise_defined(Operator::Sub, a@, b@),
        ensures
            is_elementwise(Operator::Sub, a@, b@, r@),
    ;

    /// The elementwise product of two buffers of equal length.
    fn mul(&self, a: &[T], b: &[T]) -> (r: Vec<T>)
        requires
            a@.len() == b@.len(),
            elementwise_defined(Operator::Mul, a@, b@),
        ensures
            is_elementwise(Operator::Mul, a@, b@, r@),
    ;

    /// The elementwise quotient of two buffers of equal length.
    fn div(&self, a: &[T], b: &[T]) -> (r: Vec<T>)
        requires
            a@.len() == b@.len(),
            elementwise_defined(Operator::Div, a@, b@),
        ensures
            is_elementwise(Operator::Div, a@, b@, r@),
    ;

    /// The product of the matrix `a` with the dimensions `a_shape` and the
    /// matrix `b` with the dimensions `b_shape`, row-major like its operands.
    /// Each buffer holds at least the elements that its shape names.
    fn matmul(&self, a: &[T], a_shape: &[usize], b: &[T], b_shape: &[usize]) -> (c: Vec<T>)
        requires
            a_shape@.len() == 2,
            b_shape@.len() == 2,
            a_shape@[1] == b_shape@[0],
            a_shape@[0] * a_shape@[1] <= a@.len(),
            b_shape@[0] * b_shape@[1] <= b@.len(),
            a_shape@[0] * b_shape@[1] <= usize::MAX,
            matmul_defined(
                a@,
                b@,
                a_shape@[0] as int,
                a_shape@[1] as int,
                b_shape@[1] as int,
            ),
        ensures
            is_matmul(
                a@,
                b@,
                a_shape@[0] as int,
                a_shape@[1] as int,
                b_shape@[1] as int,
                c@,
            ),
    ;
}

} // verus!
