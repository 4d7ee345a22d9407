//! Fixed-point weight arithmetic: normalization, entropy, combination.

use caldera::math::{
    add, const_vec, entropy, find_full, hadamard_product, normalize, one_hot_row, pick_index,
    SCALE,
};

#[test]
fn test_math_entropy() {
    let zeroes = vec![0i64; 3];
    assert_eq!(entropy(&zeroes), 0);

    let ones = vec![SCALE; 3];
    assert_eq!(entropy(&ones), 0);

    // (1/2, 1/4, 1/4) has entropy 3/2 bits.
    let p = vec![SCALE / 2, SCALE / 4, SCALE / 4];
    assert_eq!(entropy(&p), 3 * SCALE / 2);

    // (1/2, 1/4, 0) has entropy 1 bit; a trailing zero changes nothing.
    let p1 = vec![SCALE / 2, SCALE / 4, 0];
    assert_eq!(entropy(&p1), SCALE);

    let p1 = vec![SCALE / 2, SCALE / 4, 0, 0];
    assert_eq!(entropy(&p1), SCALE);

    let p2 = vec![SCALE, 0, 0];
    assert_eq!(entropy(&p2), 0);
}

#[test]
fn test_math_entropy_uniform() {
    // The uniform distribution over 4 states has entropy log2(4) = 2 bits.
    let u4 = vec![SCALE / 4; 4];
    assert_eq!(entropy(&u4), 2 * SCALE);

    // Over 16 states: 4 bits.
    let u16 = vec![SCALE / 16; 16];
    assert_eq!(entropy(&u16), 4 * SCALE);
}

#[test]
fn test_math_entropy_permutation() {
    let a = vec![SCALE / 2, SCALE / 4, SCALE / 8, SCALE / 8];
    let b = vec![SCALE / 8, SCALE / 2, SCALE / 8, SCALE / 4];
    assert_eq!(entropy(&a), entropy(&b));
}

#[test]
fn test_math_normalize() {
    // Every entry invalid: no distribution; the vector zeroes out and the
    // call reports it.
    let mut zeroes = vec![0i64; 3];
    assert!(!normalize(&mut zeroes));
    assert!(zeroes.iter().all(|x| *x == 0));

    // A negative entry is clamped to nothing; the rest are scaled.
    let mut negative = vec![SCALE, SCALE, -SCALE];
    assert!(normalize(&mut negative));
    assert_eq!(negative, vec![SCALE / 2, SCALE / 2, 0]);

    let mut p = vec![2 * SCALE, SCALE, SCALE];
    assert!(normalize(&mut p));
    assert_eq!(p, vec![SCALE / 2, SCALE / 4, SCALE / 4]);

    // The normalized entries sum to one, up to rounding: three equal
    // weights give 3 * floor(SCALE / 3) = SCALE - 1.
    let mut thirds = vec![7i64, 7, 7];
    assert!(normalize(&mut thirds));
    let total: i64 = thirds.iter().sum();
    assert!(SCALE - 3 < total && total <= SCALE);
}

#[test]
fn test_math_hadamard_product() {
    let mut zeroes = vec![0i64; 3];
    let a = vec![3i64, 5, 7];
    hadamard_product(&mut zeroes, &a);
    assert_eq!(zeroes, vec![0i64; 3]);

    // Multiplying the full weight by small update factors scales each slot.
    let mut w = vec![SCALE, SCALE, SCALE];
    hadamard_product(&mut w, &a);
    assert_eq!(w, vec![3 * SCALE, 5 * SCALE, 7 * SCALE]);

    // A negative update factor drives the product negative; the normalize
    // that follows clamps it away.
    let mut v = vec![SCALE, SCALE];
    hadamard_product(&mut v, &vec![-SCALE, SCALE]);
    assert!(normalize(&mut v));
    assert_eq!(v, vec![0, SCALE]);
}

#[test]
fn test_math_add() {
    let mut zeroes = vec![0i64; 3];
    let a = vec![2i64, 1, 1];
    let b = vec![2i64, 1, 2];

    add(&mut zeroes, &a);
    assert_eq!(zeroes, a);

    let mut ones = vec![1i64; 3];
    add(&mut ones, &a);
    assert_eq!(ones, vec![3, 2, 2]);

    let mut c = a.clone();
    add(&mut c, &b);
    assert_eq!(c, vec![4, 2, 3]);
}

#[test]
fn test_math_pick_index() {
    let w = vec![0i64, 5, 3];
    // The zero-weight slot can never be picked: the draw lands in the
    // cumulative span of a positive entry.
    assert_eq!(pick_index(&w, 0), 1);
    assert_eq!(pick_index(&w, 4), 1);
    assert_eq!(pick_index(&w, 5), 2);
    assert_eq!(pick_index(&w, 7), 2);
}

#[test]
fn test_math_one_hot_and_find_full() {
    let row = one_hot_row(4, 2);
    assert_eq!(row, vec![0, 0, SCALE, 0]);
    assert_eq!(find_full(&row), Some(2));
    assert_eq!(find_full(&vec![0i64, 0, 0]), None);

    let c = const_vec(3, 9);
    assert_eq!(c, vec![9, 9, 9]);
}
