//! Row-major shape arithmetic: element counts, strides and flat offsets.
//!
//! A shape is a sequence of dimension sizes. The buffer of an array with that
//! shape is laid out row-major: the last dimension is contiguous, and one step
//! along dimension `i` skips as many elements as the dimensions after `i` hold
//! together.

use vstd::prelude::*;

verus! {

/// The number of elements of an array with the dimensions `shape`: the product
/// of the sizes, which is 1 for the empty shape.
pub open spec fn shape_product(shape: Seq<usize>) -> nat
    decreases shape.len(),
{
    if shape.len() == 0 {
        1
    } else {
        shape[0] as nat * shape_product(shape.drop_first())
    }
}

/// The row-major stride of dimension `i`: the number of elements that the
/// dimensions after `i` hold together.
pub open spec fn stride_at(shape: Seq<usize>, i: int) -> nat
    recommends
        0 <= i < shape.len(),
{
    shape_product(shape.skip(i + 1))
}

/// Every stride of `shape` is representable as a `usize`.
pub open spec fn strides_fit(shape: Seq<usize>) -> bool {
    forall|i: int| 0 <= i < shape.len() ==> #[trigger] stride_at(shape, i) <= usize::MAX
}

/// `strides` holds the row-major strides of `shape`, one for each dimension.
pub open spec fn is_strides_of(shape: Seq<usize>, strides: Seq<usize>) -> bool {
    &&& strides.len() == shape.len()
    &&& forall|i: int| 0 <= i < shape.len() ==> #[trigger] strides[i] as nat == stride_at(shape, i)
}

/// `indices` names one element of an array with the dimensions `shape`: one
/// coordinate for each dimension, each below the size of its dimension.
pub open spec fn valid_index(shape: Seq<usize>, indices: Seq<usize>) -> bool {
    &&& indices.len() == shape.len()
    &&& forall|i: int| 0 <= i < shape.len() ==> #[trigger] indices[i] < shape[i]
}

/// The part of the flat offset that the coordinates from dimension `from` on
/// contribute: the sum of `indices[i] * stride_at(shape, i)` over `i >= from`.
pub open spec fn offset_from(shape: Seq<usize>, indices: Seq<usize>, from: int) -> nat
    decreases shape.len() - from,
{
    if from < 0 || from >= shape.len() {
        0
    } else {
        indices[from] as nat * stride_at(shape, from) + offset_from(shape, indices, from + 1)
    }
}

/// The position in the row-major buffer of the element that `indices` names:
/// the sum of `indices[i] * stride_at(shape, i)` over all dimensions.
pub open spec fn flat_index(shape: Seq<usize>, indices: Seq<usize>) -> nat {
    offset_from(shape, indices, 0)
}

/// Strides that are held as `usize` values are representable.
pub proof fn lemma_strides_of_fit(shape: Seq<usize>, strides: Seq<usize>)
    requires
        is_strides_of(shape, strides),
    ensures
        strides_fit(shape),
{
    assert forall|i: int| 0 <= i < shape.len() implies #[trigger] stride_at(shape, i)
        <= usize::MAX by {
        assert(strides[i] as nat == stride_at(shape, i));
    }
}

/// The element count of a suffix of a shape is the size of its first
/// dimension times the element count of what follows it.
pub proof fn lemma_product_skip(shape: Seq<usize>, i: int)
    requires
        0 <= i < shape.len(),
    ensures
        shape_product(shape.skip(i)) == shape[i] as nat * shape_product(shape.skip(i + 1)),
{
    assert(shape.skip(i).drop_first() =~= shape.skip(i + 1));
}

/// The strides obey the row-major recurrence: the last one is 1, and each
/// other one is the next stride times the next dimension's size.
pub proof fn lemma_stride_recurrence(shape: Seq<usize>, i: int)
    requires
        0 <= i < shape.len(),
    ensures
        i == shape.len() - 1 ==> stride_at(shape, i) == 1,
        i < shape.len() - 1 ==> stride_at(shape, i) == stride_at(shape, i + 1) * shape[i
            + 1] as nat,
{
    if i < shape.len() - 1 {
        lemma_product_skip(shape, i + 1);
        assert(stride_at(shape, i) == shape[i + 1] as nat * stride_at(shape, i + 1));
        assert(shape[i + 1] as nat * stride_at(shape, i + 1) == stride_at(shape, i + 1) * shape[i
            + 1] as nat) by (nonlinear_arith);
    } else {
        assert(shape.skip(i + 1).len() == 0);
    }
}

/// The element count of a shape is the size of its first dimension times the
/// first stride.
pub proof fn lemma_product_is_first_stride(shape: Seq<usize>)
    requires
        shape.len() > 0,
    ensures
        shape_product(shape) == shape[0] as nat * stride_at(shape, 0),
{
    assert(shape.skip(0) =~= shape);
    lemma_product_skip(shape, 0);
}

/// In a shape without an empty dimension, a suffix never holds more elements
/// than a longer suffix: every stride is at most the element count.
pub proof fn lemma_product_skip_monotonic(shape: Seq<usize>, i: int, j: int)
    requires
        forall|d: int| 0 <= d < shape.len() ==> shape[d] > 0,
        0 <= i <= j <= shape.len(),
    ensures
        shape_product(shape.skip(j)) <= shape_product(shape.skip(i)),
    decreases j - i,
{
    if i < j {
        lemma_product_skip_monotonic(shape, i + 1, j);
        lemma_product_skip(shape, i);
        assert(shape_product(shape.skip(i + 1)) <= shape[i] as nat * shape_product(
            shape.skip(i + 1),
        )) by (nonlinear_arith)
            requires
                shape[i] > 0,
        ;
    }
}

/// Where no dimension is empty and the element count is representable, so is
/// every stride.
pub proof fn lemma_strides_fit_without_empty_dimension(shape: Seq<usize>)
    requires
        forall|d: int| 0 <= d < shape.len() ==> shape[d] > 0,
        shape_product(shape) <= usize::MAX,
    ensures
        strides_fit(shape),
{
    assert forall|i: int| 0 <= i < shape.len() implies #[trigger] stride_at(shape, i)
        <= usize::MAX by {
        lemma_product_skip_monotonic(shape, 0, i + 1);
        assert(shape.skip(0) =~= shape);
    }
}

/// A shape with an empty dimension has no elements.
pub proof fn lemma_product_zero(shape: Seq<usize>, d: int)
    requires
        0 <= d < shape.len(),
        shape[d] == 0,
    ensures
        shape_product(shape) == 0,
    decreases shape.len(),
{
    if d > 0 {
        lemma_product_zero(shape.drop_first(), d - 1);
        assert(shape[0] as nat * 0 == 0) by (nonlinear_arith);
    } else {
        assert(0 * shape_product(shape.drop_first()) == 0) by (nonlinear_arith);
    }
}

/// The coordinates from dimension `from` on address less than one step of
/// the dimension before them.
pub proof fn lemma_offset_from_bound(shape: Seq<usize>, indices: Seq<usize>, from: int)
    requires
        valid_index(shape, indices),
        0 <= from <= shape.len(),
    ensures
        offset_from(shape, indices, from) < shape_product(shape.skip(from)),
    decreases shape.len() - from,
{
    if from < shape.len() {
        lemma_offset_from_bound(shape, indices, from + 1);
        lemma_product_skip(shape, from);
        let stride = stride_at(shape, from);
        assert(indices[from] as nat * stride + stride <= shape[from] as nat * stride)
            by (nonlinear_arith)
            requires
                indices[from] < shape[from],
        ;
    } else {
        assert(shape.skip(from).len() == 0);
    }
}

/// A valid multi-index addresses an element inside the buffer.
pub proof fn lemma_flat_index_in_bounds(shape: Seq<usize>, indices: Seq<usize>)
    requires
        valid_index(shape, indices),
    ensures
        flat_index(shape, indices) < shape_product(shape),
{
    lemma_offset_from_bound(shape, indices, 0);
    assert(shape.skip(0) =~= shape);
}

/// Two valid multi-indices whose coordinates from dimension `from` on address
/// the same offset agree on all those coordinates.
pub proof fn lemma_offset_from_injective(
    shape: Seq<usize>,
    first: Seq<usize>,
    second: Seq<usize>,
    from: int,
)
    requires
        valid_index(shape, first),
        valid_index(shape, second),
        0 <= from <= shape.len(),
        offset_from(shape, first, from) == offset_from(shape, second, from),
    ensures
        forall|i: int| from <= i < shape.len() ==> first[i] == second[i],
    decreases shape.len() - from,
{
    if from < shape.len() {
        let stride = stride_at(shape, from);
        let rest_first = offset_from(shape, first, from + 1);
        let rest_second = offset_from(shape, second, from + 1);
        lemma_offset_from_bound(shape, first, from + 1);
        lemma_offset_from_bound(shape, second, from + 1);
        assert(first[from] == second[from] && rest_first == rest_second) by (nonlinear_arith)
            requires
                first[from] as nat * stride + rest_first == second[from] as nat * stride
                    + rest_second,
                rest_first < stride,
                rest_second < stride,
        ;
        lemma_offset_from_injective(shape, first, second, from + 1);
    }
}

/// Distinct valid multi-indices address distinct elements of the buffer.
pub proof fn lemma_flat_index_injective(shape: Seq<usize>, first: Seq<usize>, second: Seq<usize>)
    requires
        valid_index(shape, first),
        valid_index(shape, second),
        flat_index(shape, first) == flat_index(shape, second),
    ensures
        first == second,
{
    lemma_offset_from_injective(shape, first, second, 0);
    assert(first =~= second);
}

/// In a two-dimensional shape the element in row `i` and column `j` lies at
/// `i * columns + j`.
pub proof fn lemma_flat_index_2d(shape: Seq<usize>, indices: Seq<usize>)
    requires
        shape.len() == 2,
        indices.len() == 2,
    ensures
        stride_at(shape, 0) == shape[1],
        stride_at(shape, 1) == 1,
        flat_index(shape, indices) == indices[0] * shape[1] + indices[1],
{
    lemma_stride_recurrence(shape, 0);
    lemma_stride_recurrence(shape, 1);
    assert(offset_from(shape, indices, 2) == 0);
    assert(offset_from(shape, indices, 1) == indices[1] as nat * stride_at(shape, 1)
        + offset_from(shape, indices, 2));
    assert(offset_from(shape, indices, 0) == indices[0] as nat * stride_at(shape, 0)
        + offset_from(shape, indices, 1));
    assert(indices[1] as nat * 1 == indices[1]) by (nonlinear_arith);
    assert(1 * shape[1] as nat == shape[1]) by (nonlinear_arith);
}

/// A two-dimensional shape holds rows times columns elements, one step along
/// a row skips one element and one step along a column skips a whole row; both
/// strides are representable.
pub proof fn lemma_shape_2d(shape: Seq<usize>)
    requires
        shape.len() == 2,
    ensures
        shape_product(shape) == shape[0] * shape[1],
        stride_at(shape, 0) == shape[1],
        stride_at(shape, 1) == 1,
        strides_fit(shape),
{
    lemma_flat_index_2d(shape, shape);
    lemma_product_is_first_stride(shape);
    assert forall|i: int| 0 <= i < shape.len() implies #[trigger] stride_at(shape, i)
        <= usize::MAX by {
        if i == 0 {
        } else {
            assert(i == 1);
        }
    }
}

/// Whether some dimension of `shape` is empty.
fn has_empty_dimension(shape: &[usize]) -> (found: bool)
    ensures
        found <==> exists|i: int| 0 <= i < shape@.len() && shape@[i] == 0,
{
    let mut i: usize = 0;
    while i < shape.len()
        invariant
            i <= shape@.len(),
            forall|d: int| 0 <= d < i ==> shape@[d] > 0,
        decreases shape@.len() - i,
    {
        if shape[i] == 0 {
            return true;
        }
        i += 1;
    }
    false
}

/// The number of elements of an array with the dimensions `shape`.
///
/// The count itself has to fit in a `usize`; a product of some of the
/// dimensions may well exceed it where another dimension is empty.
pub fn element_count(shape: &[usize]) -> (count: usize)
    requires
        shape_product(shape@) <= usize::MAX,
    ensures
        count == shape_product(shape@),
{
    if has_empty_dimension(shape) {
        proof {
            let d = choose|d: int| 0 <= d < shape@.len() && shape@[d] == 0;
            lemma_product_zero(shape@, d);
        }
        return 0;
    }
    let mut count: usize = 1;
    let mut i: usize = shape.len();
    assert(shape@.skip(i as int).len() == 0);
    while i > 0
        invariant
            i <= shape@.len(),
            forall|d: int| 0 <= d < shape@.len() ==> shape@[d] > 0,
            shape_product(shape@) <= usize::MAX,
            count == shape_product(shape@.skip(i as int)),
        decreases i,
    {
        i -= 1;
        proof {
            lemma_product_skip(shape@, i as int);
            lemma_product_skip_monotonic(shape@, 0, i as int);
            assert(shape@.skip(0) =~= shape@);
        }
        count = shape[i] * count;
    }
    assert(shape@.skip(0) =~= shape@);
    count
}

/// The number of elements of an array with the dimensions `shape`, where the
/// array can be laid out: `None` where the count or one of the strides is
/// more than a `usize` holds.
pub fn layout_size(shape: &[usize]) -> (size: Option<usize>)
    ensures
        size is Some <==> shape_product(shape@) <= usize::MAX && strides_fit(shape@),
        size is Some ==> size->0 == shape_product(shape@),
{
    let mut count: usize = 1;
    let mut i: usize = shape.len();
    assert(shape@.skip(i as int).len() == 0);
    while i > 0
        invariant
            i <= shape@.len(),
            count == shape_product(shape@.skip(i as int)),
            forall|d: int| i <= d < shape@.len() ==> #[trigger] stride_at(shape@, d) <= usize::MAX,
        decreases i,
    {
        i -= 1;
        proof {
            lemma_product_skip(shape@, i as int);
            assert(shape@.skip(0) =~= shape@);
            assert(shape@[i as int] as nat * count == count * shape@[i as int])
                by (nonlinear_arith);
        }
        match count.checked_mul(shape[i]) {
            Some(next) => {
                proof {
                    assert forall|d: int| i <= d < shape@.len() implies #[trigger] stride_at(
                        shape@,
                        d,
                    ) <= usize::MAX by {
                        if d == i {
                        }
                    }
                }
                count = next;
            },
            None => {
                proof {
                    if i > 0 {
                        assert(stride_at(shape@, i - 1) > usize::MAX);
                    }
                }
                return None;
            },
        }
    }
    assert(shape@.skip(0) =~= shape@);
    Some(count)
}

/// Whether `indices` names an element of an array with the dimensions
/// `shape`: one coordinate for each dimension, each below its dimension's size.
pub fn is_valid_index(shape: &[usize], indices: &[usize]) -> (valid: bool)
    ensures
        valid == valid_index(shape@, indices@),
{
    if indices.len() != shape.len() {
        return false;
    }
    let mut i: usize = 0;
    while i < indices.len()
        invariant
            indices@.len() == shape@.len(),
            i <= indices@.len(),
            forall|d: int| 0 <= d < i ==> #[trigger] indices@[d] < shape@[d],
        decreases indices@.len() - i,
    {
        if indices[i] >= shape[i] {
            return false;
        }
        i += 1;
    }
    true
}

} // verus!
