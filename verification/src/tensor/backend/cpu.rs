//! The CPU backends.

use vstd::prelude::*;
use rayon::iter::{IntoParallelIterator, ParallelIterator};
use crate::tensor::backend::matrix::{
    column, dot_defined, is_cell, is_dot, is_dot_prefix, lemma_cells_make_matmul,
    lemma_position_to_cell, matmul_defined, row,
};
use crate::tensor::backend::traits::{Backend, Numeric, Operator, defined, is_result, is_zero};
use crate::tensor::shape::element_count;

verus! {

/// Applies `f` to every index below `len` on rayon's worker pool and collects
/// the results in index order: `into_par_iter`, `map` and `collect` on the
/// range `0..len`.
///
/// Not proved, but taken from rayon: a range of `usize` is an indexed
/// parallel iterator, `map` calls `f` once for each of its items, and
/// collecting an indexed parallel iterator into a `Vec` keeps the order of the
/// items. So the result has `len` elements, and element `i` is what `f`
/// returned for `i`. rayon hands on a panic of `f`; `f` has to be callable on
/// every index, and then it has none to hand on. As with a `Vec` filled in a
/// loop, a result too large for the memory at hand is outside what the
/// contract speaks of.
#[verifier::external_body]
fn par_tabulate<T: Send, F: Fn(usize) -> T + Sync + Send>(len: usize, f: F) -> (r: Vec<T>)
    requires
        forall|i: usize| i < len ==> call_requires(f, (i,)),
    ensures
        r@.len() == len,
        forall|i: int| 0 <= i < len ==> call_ensures(f, (i as usize,), #[trigger] r@[i]),
{
    (0..len).into_par_iter().map(f).collect()
}

/// One cell of a matrix product: the dot product of a row of `a` and a column
/// of `b`, accumulated in ascending order.
fn dot_cell<T: Numeric>(a: &[T], b: &[T], k: usize, n: usize, i: usize, j: usize) -> (sum: T)
    requires
        j < n,
        i * k + k <= a@.len(),
        k * n <= b@.len(),
        dot_defined(row(a@, k as int, i as int), column(b@, k as int, n as int, j as int)),
    ensures
        is_dot(row(a@, k as int, i as int), column(b@, k as int, n as int, j as int), sum),
{
    let ghost x = row(a@, k as int, i as int);
    let ghost y = column(b@, k as int, n as int, j as int);
    assert(a.len() == a@.len() && b.len() == b@.len());
    let mut sum = T::default();
    let mut l: usize = 0;
    while l < k
        invariant
            l <= k,
            a@.len() <= usize::MAX,
            b@.len() <= usize::MAX,
            j < n,
            i * k + k <= a@.len(),
            k * n <= b@.len(),
            x == row(a@, k as int, i as int),
            y == column(b@, k as int, n as int, j as int),
            dot_defined(x, y),
            is_dot_prefix(x, y, l as nat, sum),
        decreases k - l,
    {
        assert(l * n + j < k * n) by (nonlinear_arith)
            requires
                l < k,
                j < n,
        ;
        assert(0 <= i * k <= a@.len() - k) by (nonlinear_arith)
            requires
                i * k + k <= a@.len(),
        ;
        assert(0 <= l * n) by (nonlinear_arith);
        let left = a[i * k + l];
        let right = b[l * n + j];
        assert(left == x[l as int]);
        assert(right == y[l as int]);
        assert(defined(Operator::Mul, x[l as int], y[l as int]));
        let term = left * right;
        assert(is_result(Operator::Mul, x[l as int], y[l as int], term));
        let next = sum + term;
        assert(is_result(Operator::Add, sum, term, next));
        sum = next;
        l += 1;
    }
    sum
}

/// The cell at position `index` of the row-major product of the `m` by `k`
/// matrix `a` and the `k` by `n` matrix `b`.
fn cell_at<T: Numeric>(a: &[T], b: &[T], m: usize, k: usize, n: usize, index: usize) -> (c: T)
    requires
        m * k <= a@.len(),
        k * n <= b@.len(),
        index < m * n,
        matmul_defined(a@, b@, m as int, k as int, n as int),
    ensures
        is_cell(a@, b@, k as int, n as int, index as int, c),
{
    proof {
        lemma_position_to_cell(m as int, n as int, index as int);
    }
    let i: usize = index / n;
    let j: usize = index % n;
    assert(i * k + k <= m * k) by (nonlinear_arith)
        requires
            i < m,
    ;
    assert(dot_defined(row(a@, k as int, i as int), column(b@, k as int, n as int, j as int)));
    dot_cell(a, b, k, n, i, j)
}

/// A buffer of `count` copies of `value`.
fn filled<T: Numeric>(value: T, count: usize) -> (buffer: Vec<T>)
    ensures
        buffer@.len() == count,
        forall|i: int| 0 <= i < count ==> #[trigger] buffer@[i] == value,
{
    let mut buffer: Vec<T> = Vec::with_capacity(count);
    let mut i: usize = 0;
    while i < count
        invariant
            i <= count,
            buffer@.len() == i,
            forall|p: int| 0 <= p < i ==> #[trigger] buffer@[p] == value,
        decreases count - i,
    {
        buffer.push(value);
        i += 1;
    }
    buffer
}

/// Applies `f` to the corresponding elements of two buffers of equal length,
/// from the first pair to the last.
fn zip_with<T: Numeric, F: Fn(T, T) -> T>(a: &[T], b: &[T], f: F) -> (r: Vec<T>)
    requires
        a@.len() == b@.len(),
        forall|i: int| 0 <= i < a@.len() ==> call_requires(f, (#[trigger] a@[i], b@[i])),
    ensures
        r@.len() == a@.len(),
        forall|i: int| 0 <= i < a@.len() ==> call_ensures(f, (a@[i], b@[i]), #[trigger] r@[i]),
{
    let mut r: Vec<T> = Vec::with_capacity(a.len());
    let mut i: usize = 0;
    while i < a.len()
        invariant
            a@.len() == b@.len(),
            i <= a@.len(),
            r@.len() == i,
            forall|p: int| 0 <= p < a@.len() ==> call_requires(f, (#[trigger] a@[p], b@[p])),
            forall|p: int| 0 <= p < i ==> call_ensures(f, (a@[p], b@[p]), #[trigger] r@[p]),
        decreases a@.len() - i,
    {
        r.push(f(a[i], b[i]));
        i += 1;
    }
    r
}

/// The single-threaded backend: the cells of a matrix product are computed
/// one after the other in row-major order.
#[derive(Clone, Copy, Debug, Default)]
pub struct SequentialCpuBackend;

impl<T: Numeric> Backend<T> for SequentialCpuBackend {
    fn allocate(&self, shape: &[usize]) -> (buffer: Vec<T>)
        ensures
            forall|i: int| 0 <= i < buffer@.len() ==> is_zero::<T>(#[trigger] buffer@[i]),
    {
        filled(T::default(), element_count(shape))
    }

    fn zeros(&self, shape: &[usize]) -> (buffer: Vec<T>) {
        filled(T::default(), element_count(shape))
    }

    fn ones(&self, shape: &[usize]) -> (buffer: Vec<T>) {
        filled(T::from(1u8), element_count(shape))
    }

    fn add(&self, a: &[T], b: &[T]) -> (r: Vec<T>) {
        zip_with(a, b, <T as std::ops::Add>::add)
    }

    fn sub(&self, a: &[T], b: &[T]) -> (r: Vec<T>) {
        zip_with(a, b, <T as std::ops::Sub>::sub)
    }

    fn mul(&self, a: &[T], b: &[T]) -> (r: Vec<T>) {
        zip_with(a, b, <T as std::ops::Mul>::mul)
    }

    fn div(&self, a: &[T], b: &[T]) -> (r: Vec<T>) {
        zip_with(a, b, <T as std::ops::Div>::div)
    }

    fn matmul(&self, a: &[T], a_shape: &[usize], b: &[T], b_shape: &[usize]) -> (c: Vec<T>) {
        let m: usize = a_shape[0];
        let k: usize = a_shape[1];
        let n: usize = b_shape[1];
        let count: usize = m * n;
        let mut c: Vec<T> = Vec::with_capacity(count);
        let mut index: usize = 0;
        while index < count
            invariant
                count == m * n,
                m * k <= a@.len(),
                k * n <= b@.len(),
                matmul_defined(a@, b@, m as int, k as int, n as int),
                index <= count,
                c@.len() == index,
                forall|p: int|
                    0 <= p < index ==> is_cell(a@, b@, k as int, n as int, p, #[trigger] c@[p]),
            decreases count - index,
        {
            c.push(cell_at(a, b, m, k, n, index));
            index += 1;
        }
        proof {
            lemma_cells_make_matmul(a@, b@, m as int, k as int, n as int, c@);
        }
        c
    }
}

/// The backend that spreads the cells of a matrix product over rayon's
/// worker pool, one task for each cell. A task reads the two operands, writes
/// nothing but its own cell and accumulates in ascending order, as
/// [`SequentialCpuBackend`] does; everything else is left to that backend.
#[derive(Clone, Copy, Debug, Default)]
pub struct CpuBackend;

impl<T: Numeric> Backend<T> for CpuBackend {
    fn allocate(&self, shape: &[usize]) -> (buffer: Vec<T>)
        ensures
            forall|i: int| 0 <= i < buffer@.len() ==> is_zero::<T>(#[trigger] buffer@[i]),
    {
        SequentialCpuBackend.allocate(shape)
    }

    fn zeros(&self, shape: &[usize]) -> (buffer: Vec<T>) {
        SequentialCpuBackend.zeros(shape)
    }

    fn ones(&self, shape: &[usize]) -> (buffer: Vec<T>) {
        SequentialCpuBackend.ones(shape)
    }

    fn add(&self, a: &[T], b: &[T]) -> (r: Vec<T>) {
        SequentialCpuBackend.add(a, b)
    }

    fn sub(&self, a: &[T], b: &[T]) -> (r: Vec<T>) {
        SequentialCpuBackend.sub(a, b)
    }

    fn mul(&self, a: &[T], b: &[T]) -> (r: Vec<T>) {
        SequentialCpuBackend.mul(a, b)
    }

    fn div(&self, a: &[T], b: &[T]) -> (r: Vec<T>) {
        SequentialCpuBackend.div(a, b)
    }

    fn matmul(&self, a: &[T], a_shape: &[usize], b: &[T], b_shape: &[usize]) -> (c: Vec<T>) {
        let m: usize = a_shape[0];
        let k: usize = a_shape[1];
        let n: usize = b_shape[1];
        let count: usize = m * n;
        let cell = |index: usize| -> (value: T)
            requires
                index < count,
            ensures
                is_cell(a@, b@, k as int, n as int, index as int, value),
            { cell_at(a, b, m, k, n, index) };
        let c = par_tabulate(count, cell);
        proof {
            lemma_cells_make_matmul(a@, b@, m as int, k as int, n as int, c@);
        }
        c
    }
}

} // verus!
