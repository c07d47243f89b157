//! What a dense matrix product is, over row-major buffers.

use vstd::prelude::*;
use vstd::arithmetic::div_mod::{
    lemma_fundamental_div_mod, lemma_fundamental_div_mod_converse, lemma_mod_bound,
};
use vstd::std_specs::ops::{AddSpec, MulSpec};
use crate::tensor::backend::traits::{
    Numeric, Operator, arithmetic_is_functional, defined, is_result, is_zero,
    lemma_result_obeys_specification, zero_is_unique,
};

verus! {

/// Row `i` of the row-major matrix `a` with `columns` columns.
pub open spec fn row<T>(a: Seq<T>, columns: int, i: int) -> Seq<T> {
    Seq::new(columns as nat, |l: int| a[i * columns + l])
}

/// Column `j` of the row-major matrix `b` with `rows` rows and `columns` columns.
pub open spec fn column<T>(b: Seq<T>, rows: int, columns: int, j: int) -> Seq<T> {
    Seq::new(rows as nat, |l: int| b[l * columns + j])
}

/// `acc` is a value that the first `l` terms of the dot product of `x` and
/// `y` accumulate to: starting from zero, the products `x[0] * y[0]`,
/// `x[1] * y[1]`, ... are added one after the other, in ascending order.
pub open spec fn is_dot_prefix<T: Numeric>(x: Seq<T>, y: Seq<T>, l: nat, acc: T) -> bool
    decreases l,
{
    if l == 0 {
        is_zero(acc)
    } else {
        exists|prev: T, term: T|
            {
                &&& #[trigger] is_result(Operator::Add, prev, term, acc)
                &&& is_dot_prefix(x, y, (l - 1) as nat, prev)
                &&& is_result(Operator::Mul, x[l - 1], y[l - 1], term)
            }
    }
}

/// `r` is a value of the dot product of `x` and `y`, accumulated in ascending
/// order.
pub open spec fn is_dot<T: Numeric>(x: Seq<T>, y: Seq<T>, r: T) -> bool {
    is_dot_prefix(x, y, x.len(), r)
}

/// Every multiplication and every addition that the dot product of `x` and
/// `y` needs may be evaluated, whatever the earlier ones returned.
pub open spec fn dot_defined<T: Numeric>(x: Seq<T>, y: Seq<T>) -> bool {
    &&& forall|l: int| 0 <= l < x.len() ==> #[trigger] defined(Operator::Mul, x[l], y[l])
    &&& forall|l: nat, acc: T, term: T|
        l < x.len() && #[trigger] is_dot_prefix(x, y, l, acc) && #[trigger] is_result(
            Operator::Mul,
            x[l as int],
            y[l as int],
            term,
        ) ==> defined(Operator::Add, acc, term)
}

/// `c` is a product of the `m` by `k` matrix `a` and the `k` by `n` matrix
/// `b`: it has `m * n` elements, and the one in row `i` and column `j` is a
/// dot product of row `i` of `a` and column `j` of `b`.
pub open spec fn is_matmul<T: Numeric>(
    a: Seq<T>,
    b: Seq<T>,
    m: int,
    k: int,
    n: int,
    c: Seq<T>,
) -> bool {
    &&& c.len() == m * n
    &&& forall|i: int, j: int|
        0 <= i < m && 0 <= j < n ==> is_dot(
            #[trigger] row(a, k, i),
            #[trigger] column(b, k, n, j),
            c[i * n + j],
        )
}

/// Every operation that the product of the `m` by `k` matrix `a` and the `k`
/// by `n` matrix `b` needs may be evaluated.
pub open spec fn matmul_defined<T: Numeric>(a: Seq<T>, b: Seq<T>, m: int, k: int, n: int) -> bool {
    forall|i: int, j: int|
        0 <= i < m && 0 <= j < n ==> dot_defined(
            #[trigger] row(a, k, i),
            #[trigger] column(b, k, n, j),
        )
}

/// `c` is a value of the cell at position `index` of the row-major product of
/// `a` and `b`, whose rows have `n` elements: the cell in row `index / n` and
/// column `index % n`.
pub open spec fn is_cell<T: Numeric>(
    a: Seq<T>,
    b: Seq<T>,
    k: int,
    n: int,
    index: int,
    c: T,
) -> bool {
    is_dot(row(a, k, index / n), column(b, k, n, index % n), c)
}

/// A position in a row-major buffer of `m` rows of `n` elements names one row
/// and one column.
pub proof fn lemma_position_to_cell(m: int, n: int, index: int)
    requires
        0 <= m,
        0 <= n,
        0 <= index < m * n,
    ensures
        0 <= index / n < m,
        0 <= index % n < n,
        index == (index / n) * n + index % n,
{
    assert(n > 0) by (nonlinear_arith)
        requires
            0 <= n,
            0 < m * n,
    ;
    lemma_fundamental_div_mod(index, n);
    lemma_mod_bound(index, n);
    assert(n * (index / n) == (index / n) * n) by (nonlinear_arith);
    assert(0 <= index / n < m) by (nonlinear_arith)
        requires
            n > 0,
            0 <= index < m * n,
            index == (index / n) * n + index % n,
            0 <= index % n < n,
    ;
}

/// Row `i` and column `j` of a row-major buffer whose rows have `n` elements
/// lie at position `i * n + j`, and at no other.
pub proof fn lemma_cell_to_position(n: int, i: int, j: int)
    requires
        0 <= i,
        0 <= j < n,
    ensures
        (i * n + j) / n == i,
        (i * n + j) % n == j,
{
    lemma_fundamental_div_mod_converse(i * n + j, n, i, j);
}

/// A buffer of `m * n` cells, each a dot product of the row and the column
/// that its position names, is a matrix product.
pub proof fn lemma_cells_make_matmul<T: Numeric>(
    a: Seq<T>,
    b: Seq<T>,
    m: int,
    k: int,
    n: int,
    c: Seq<T>,
)
    requires
        0 <= m,
        0 <= n,
        c.len() == m * n,
        forall|index: int| 0 <= index < m * n ==> is_cell(a, b, k, n, index, #[trigger] c[index]),
    ensures
        is_matmul(a, b, m, k, n, c),
{
    assert forall|i: int, j: int| 0 <= i < m && 0 <= j < n implies is_dot(
        #[trigger] row(a, k, i),
        #[trigger] column(b, k, n, j),
        c[i * n + j],
    ) by {
        lemma_cell_to_position(n, i, j);
        assert(0 <= i * n + j < m * n) by (nonlinear_arith)
            requires
                0 <= i < m,
                0 <= j < n,
        ;
        assert(is_cell(a, b, k, n, i * n + j, c[i * n + j]));
    }
}

/// Where the arithmetic of the element type is functional, the first `l`
/// terms of a dot product accumulate to one value.
pub proof fn lemma_dot_prefix_functional<T: Numeric>(
    x: Seq<T>,
    y: Seq<T>,
    l: nat,
    first: T,
    second: T,
)
    requires
        arithmetic_is_functional::<T>(),
        is_dot_prefix(x, y, l, first),
        is_dot_prefix(x, y, l, second),
    ensures
        first == second,
    decreases l,
{
    if l > 0 {
        let (prev_first, term_first) = choose|prev: T, term: T|
            {
                &&& #[trigger] is_result(Operator::Add, prev, term, first)
                &&& is_dot_prefix(x, y, (l - 1) as nat, prev)
                &&& is_result(Operator::Mul, x[l - 1], y[l - 1], term)
            };
        let (prev_second, term_second) = choose|prev: T, term: T|
            {
                &&& #[trigger] is_result(Operator::Add, prev, term, second)
                &&& is_dot_prefix(x, y, (l - 1) as nat, prev)
                &&& is_result(Operator::Mul, x[l - 1], y[l - 1], term)
            };
        lemma_dot_prefix_functional(x, y, (l - 1) as nat, prev_first, prev_second);
        assert(term_first == term_second);
    }
}

/// The first `l` terms of the dot product of `x` and `y` by the
/// specifications of the operators: `zero + x[0] * y[0] + ... + x[l - 1] *
/// y[l - 1]`, added from left to right.
pub open spec fn dot_fold<T: Numeric>(x: Seq<T>, y: Seq<T>, l: nat, zero: T) -> T
    decreases l,
{
    if l == 0 {
        zero
    } else {
        dot_fold(x, y, (l - 1) as nat, zero).add_spec(x[l - 1].mul_spec(y[l - 1]))
    }
}

/// Where addition and multiplication obey their specifications and the zero
/// of the element type is one value, a dot product is the sum of the products
/// of corresponding elements, as those specifications give it.
pub proof fn lemma_dot_prefix_is_fold<T: Numeric>(x: Seq<T>, y: Seq<T>, l: nat, zero: T, acc: T)
    requires
        T::obeys_add_spec(),
        T::obeys_mul_spec(),
        zero_is_unique::<T>(),
        is_zero(zero),
        is_dot_prefix(x, y, l, acc),
    ensures
        acc == dot_fold(x, y, l, zero),
    decreases l,
{
    if l > 0 {
        let (prev, term) = choose|prev: T, term: T|
            {
                &&& #[trigger] is_result(Operator::Add, prev, term, acc)
                &&& is_dot_prefix(x, y, (l - 1) as nat, prev)
                &&& is_result(Operator::Mul, x[l - 1], y[l - 1], term)
            };
        lemma_dot_prefix_is_fold(x, y, (l - 1) as nat, zero, prev);
        lemma_result_obeys_specification(Operator::Add, prev, term, acc);
        lemma_result_obeys_specification(Operator::Mul, x[l - 1], y[l - 1], term);
    }
}

/// Where the arithmetic of the element type is functional, two operands have
/// one matrix product: whatever computes a product of them, in whatever order
/// it takes the cells, returns the same buffer. So the sequential and the
/// parallel backend agree element for element.
pub proof fn lemma_matmul_functional<T: Numeric>(
    a: Seq<T>,
    b: Seq<T>,
    m: int,
    k: int,
    n: int,
    first: Seq<T>,
    second: Seq<T>,
)
    requires
        arithmetic_is_functional::<T>(),
        0 <= m,
        0 <= n,
        is_matmul(a, b, m, k, n, first),
        is_matmul(a, b, m, k, n, second),
    ensures
        first == second,
{
    assert forall|index: int| 0 <= index < m * n implies first[index] == second[index] by {
        lemma_position_to_cell(m, n, index);
        let x = row(a, k, index / n);
        let y = column(b, k, n, index % n);
        assert(is_dot(x, y, first[(index / n) * n + index % n]));
        assert(is_dot(x, y, second[(index / n) * n + index % n]));
        lemma_dot_prefix_functional(x, y, x.len(), first[index], second[index]);
    }
    assert(first =~= second);
}

} // verus!
