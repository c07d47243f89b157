use kranium::tensor::backend::cpu::{CpuBackend, SequentialCpuBackend};
use kranium::tensor::backend::traits::Backend;

fn sample(len: usize, seed: u32) -> Vec<f32> {
    let mut state = seed;
    let mut values = Vec::with_capacity(len);
    for _ in 0..len {
        state = state.wrapping_mul(1664525).wrapping_add(1013904223);
        values.push(((state >> 8) as f32) / 65536.0 - 128.0);
    }
    values
}

fn bits(values: &[f32]) -> Vec<u32> {
    values.iter().map(|v| v.to_bits()).collect()
}

#[test]
fn allocate_gives_a_full_length_buffer_on_both_backends() {
    let parallel: Vec<i32> = CpuBackend.allocate(&[2, 3]);
    let sequential: Vec<i32> = SequentialCpuBackend.allocate(&[2, 3]);
    assert_eq!(parallel.len(), 6);
    assert_eq!(sequential.len(), 6);
    assert_eq!(parallel, vec![0; 6]);
    assert_eq!(sequential, vec![0; 6]);
}

#[test]
fn allocate_for_an_empty_dimension_gives_an_empty_buffer() {
    let buffer: Vec<f64> = CpuBackend.allocate(&[4, 0]);
    assert!(buffer.is_empty());
}

#[test]
fn zeros_and_ones_on_integers() {
    let zeros: Vec<i64> = CpuBackend.zeros(&[2, 2]);
    assert_eq!(zeros, vec![0, 0, 0, 0]);
    let ones: Vec<i64> = CpuBackend.ones(&[3]);
    assert_eq!(ones, vec![1, 1, 1]);
    let scalar: Vec<u8> = SequentialCpuBackend.ones(&[]);
    assert_eq!(scalar, vec![1]);
}

#[test]
fn sequential_zeros_and_ones() {
    let zeros: Vec<f32> = SequentialCpuBackend.zeros(&[2, 2]);
    assert_eq!(zeros, vec![0.0; 4]);
    let ones: Vec<f32> = SequentialCpuBackend.ones(&[3]);
    assert_eq!(ones, vec![1.0; 3]);
}

#[test]
fn elementwise_operations_on_integers() {
    let a: Vec<i32> = vec![8, -9, 10];
    let b: Vec<i32> = vec![2, 3, -5];
    assert_eq!(CpuBackend.add(&a, &b), vec![10, -6, 5]);
    assert_eq!(CpuBackend.sub(&a, &b), vec![6, -12, 15]);
    assert_eq!(CpuBackend.mul(&a, &b), vec![16, -27, -50]);
    assert_eq!(CpuBackend.div(&a, &b), vec![4, -3, -2]);
}

#[test]
fn elementwise_operations_keep_the_operands() {
    let a: Vec<i32> = vec![1, 2, 3];
    let b: Vec<i32> = vec![4, 5, 6];
    let _ = SequentialCpuBackend.add(&a, &b);
    assert_eq!(a, vec![1, 2, 3]);
    assert_eq!(b, vec![4, 5, 6]);
}

#[test]
fn elementwise_operations_on_empty_buffers() {
    let a: Vec<f32> = Vec::new();
    let b: Vec<f32> = Vec::new();
    assert!(CpuBackend.add(&a, &b).is_empty());
    assert!(CpuBackend.div(&a, &b).is_empty());
}

#[test]
fn elementwise_operations_agree_between_backends() {
    let a = sample(257, 1);
    let b = sample(257, 2);
    assert_eq!(bits(&CpuBackend.add(&a, &b)), bits(&SequentialCpuBackend.add(&a, &b)));
    assert_eq!(bits(&CpuBackend.sub(&a, &b)), bits(&SequentialCpuBackend.sub(&a, &b)));
    assert_eq!(bits(&CpuBackend.mul(&a, &b)), bits(&SequentialCpuBackend.mul(&a, &b)));
    assert_eq!(bits(&CpuBackend.div(&a, &b)), bits(&SequentialCpuBackend.div(&a, &b)));
}

#[test]
fn sequential_matmul_of_two_by_three_and_three_by_two() {
    let a = vec![1.0, 2.0, 3.0, 4.0, 5.0, 6.0];
    let b = vec![7.0, 8.0, 9.0, 10.0, 11.0, 12.0];
    let c: Vec<f32> = SequentialCpuBackend.matmul(&a, &[2, 3], &b, &[3, 2]);
    assert_eq!(c, vec![58.0, 64.0, 139.0, 154.0]);
}

#[test]
fn matmul_on_integers() {
    let a: Vec<i64> = vec![1, 2, 3, 4, 5, 6];
    let b: Vec<i64> = vec![7, 8, 9, 10, 11, 12];
    assert_eq!(CpuBackend.matmul(&a, &[2, 3], &b, &[3, 2]), vec![58, 64, 139, 154]);
    assert_eq!(CpuBackend.matmul(&b, &[3, 2], &a, &[2, 3]), vec![
        39, 54, 69, 49, 68, 87, 59, 82, 105
    ]);
}

#[test]
fn matmul_is_not_commutative_in_its_operands() {
    let a: Vec<i32> = vec![1, 2, 3, 4];
    let b: Vec<i32> = vec![0, 1, 1, 0];
    assert_eq!(CpuBackend.matmul(&a, &[2, 2], &b, &[2, 2]), vec![2, 1, 4, 3]);
    assert_eq!(CpuBackend.matmul(&b, &[2, 2], &a, &[2, 2]), vec![3, 4, 1, 2]);
}

#[test]
fn matmul_by_the_identity_gives_the_matrix() {
    let a: Vec<i32> = vec![1, 2, 3, 4, 5, 6];
    let identity: Vec<i32> = vec![1, 0, 0, 0, 1, 0, 0, 0, 1];
    assert_eq!(CpuBackend.matmul(&a, &[2, 3], &identity, &[3, 3]), a);
}

#[test]
fn matmul_of_a_row_and_a_column_is_their_dot_product() {
    let row: Vec<i32> = vec![1, 2, 3, 4];
    let column: Vec<i32> = vec![5, 6, 7, 8];
    assert_eq!(CpuBackend.matmul(&row, &[1, 4], &column, &[4, 1]), vec![70]);
    assert_eq!(SequentialCpuBackend.matmul(&row, &[1, 4], &column, &[4, 1]), vec![70]);
}

#[test]
fn matmul_of_a_column_and_a_row_is_their_outer_product() {
    let column: Vec<i32> = vec![1, 2, 3];
    let row: Vec<i32> = vec![4, 5];
    assert_eq!(CpuBackend.matmul(&column, &[3, 1], &row, &[1, 2]), vec![4, 5, 8, 10, 12, 15]);
}

#[test]
fn matmul_with_no_inner_dimension_gives_zeros() {
    let a: Vec<i32> = Vec::new();
    let b: Vec<i32> = Vec::new();
    assert_eq!(CpuBackend.matmul(&a, &[2, 0], &b, &[0, 3]), vec![0; 6]);
    assert_eq!(SequentialCpuBackend.matmul(&a, &[2, 0], &b, &[0, 3]), vec![0; 6]);
}

#[test]
fn matmul_with_no_rows_or_no_columns_is_empty() {
    let a: Vec<i32> = Vec::new();
    let b: Vec<i32> = vec![1, 2, 3, 4, 5, 6];
    assert!(CpuBackend.matmul(&a, &[0, 3], &b, &[3, 2]).is_empty());
    let c: Vec<i32> = vec![1, 2, 3];
    let d: Vec<i32> = Vec::new();
    assert!(SequentialCpuBackend.matmul(&c, &[1, 3], &d, &[3, 0]).is_empty());
}

#[test]
fn matmul_accumulates_in_ascending_order() {
    // 1e8 + 1 is 1e8 in single precision, so the order of the additions shows
    let a: Vec<f32> = vec![1.0e8, 1.0, -1.0e8];
    let b: Vec<f32> = vec![1.0, 1.0, 1.0];
    let expected = ((0.0f32 + 1.0e8) + 1.0) + -1.0e8;
    assert_eq!(expected, 0.0);
    assert_eq!(CpuBackend.matmul(&a, &[1, 3], &b, &[3, 1]), vec![expected]);
    assert_eq!(SequentialCpuBackend.matmul(&a, &[1, 3], &b, &[3, 1]), vec![expected]);
}

#[test]
fn sequential_and_parallel_matmul_are_bit_identical() {
    let (m, k, n) = (17, 13, 11);
    let a = sample(m * k, 3);
    let b = sample(k * n, 4);
    let parallel = CpuBackend.matmul(&a, &[m, k], &b, &[k, n]);
    let sequential = SequentialCpuBackend.matmul(&a, &[m, k], &b, &[k, n]);
    assert_eq!(parallel.len(), m * n);
    assert_eq!(bits(&parallel), bits(&sequential));
}

#[test]
fn sequential_and_parallel_matmul_agree_with_the_definition() {
    let (m, k, n) = (5, 7, 3);
    let a: Vec<i64> = (0..(m * k) as i64).map(|v| v * 3 - 20).collect();
    let b: Vec<i64> = (0..(k * n) as i64).map(|v| 11 - v * 2).collect();
    let mut expected = Vec::new();
    for i in 0..m {
        for j in 0..n {
            let mut sum = 0i64;
            for l in 0..k {
                sum += a[i * k + l] * b[l * n + j];
            }
            expected.push(sum);
        }
    }
    assert_eq!(CpuBackend.matmul(&a, &[m, k], &b, &[k, n]), expected);
    assert_eq!(SequentialCpuBackend.matmul(&a, &[m, k], &b, &[k, n]), expected);
}

#[test]
fn parallel_matmul_of_many_cells_keeps_their_order() {
    let m = 300;
    let n = 200;
    let a: Vec<u64> = (1..=m as u64).collect();
    let b: Vec<u64> = (1..=n as u64).collect();
    let c = CpuBackend.matmul(&a, &[m, 1], &b, &[1, n]);
    assert_eq!(c.len(), m * n);
    for i in 0..m {
        for j in 0..n {
            assert_eq!(c[i * n + j], (i as u64 + 1) * (j as u64 + 1));
        }
    }
}
