use ml_rust::utils::{cosine_similarity, cosine_similarity_up, product};

#[test]
fn a_vector_is_wholly_similar_to_itself() {
    assert_eq!(cosine_similarity(&[30_000, 40_000], &[30_000, 40_000]), Some(10_000));
    assert_eq!(cosine_similarity(&[1], &[1]), Some(10_000));
    assert_eq!(cosine_similarity(&[-7, 0, 9], &[-7, 0, 9]), Some(10_000));
    let long: Vec<i32> = (0..512).map(|i| (i * 37 % 2_001) - 1_000).collect();
    assert_eq!(cosine_similarity(&long, &long), Some(10_000));
}

#[test]
fn similarity_is_the_cosine_of_the_angle() {
    assert_eq!(cosine_similarity(&[30_000, 40_000], &[40_000, 30_000]), Some(9_600));
    assert_eq!(cosine_similarity(&[10_000, 10_000], &[10_000, 0]), Some(7_071));
    assert_eq!(cosine_similarity(&[10_000, 10_000], &[-10_000, 0]), Some(-7_071));
    assert_eq!(cosine_similarity(&[10_000, 0], &[5_000, 8_660]), Some(5_000));
}

#[test]
fn similarity_does_not_depend_on_length() {
    assert_eq!(cosine_similarity(&[3, 4], &[40_000, 30_000]), Some(9_600));
    assert_eq!(cosine_similarity(&[300, 400], &[4, 3]), Some(9_600));
}

#[test]
fn similarity_is_symmetric() {
    let a = [12_345, -6_789, 101, 0, 55_555];
    let b = [-4_321, 9_876, 202, 17, 44_444];
    assert_eq!(cosine_similarity(&a, &b), cosine_similarity(&b, &a));
    assert_eq!(cosine_similarity(&a, &b), Some(8_960));
    assert_eq!(cosine_similarity_up(&a, &b), cosine_similarity_up(&b, &a));
}

#[test]
fn orthogonal_vectors_are_not_similar() {
    assert_eq!(cosine_similarity(&[10_000, 0], &[0, 10_000]), Some(0));
    assert_eq!(cosine_similarity(&[1, 1, 0], &[1, -1, 12_345]), Some(0));
}

#[test]
fn opposite_vectors_are_wholly_dissimilar() {
    assert_eq!(cosine_similarity(&[1, 2, 3], &[-1, -2, -3]), Some(-10_000));
    assert_eq!(cosine_similarity(&[i32::MIN, 0], &[i32::MAX, 0]), Some(-10_000));
}

#[test]
fn similarity_is_undefined_for_a_zero_vector() {
    assert_eq!(cosine_similarity(&[0, 0], &[1, 2]), None);
    assert_eq!(cosine_similarity(&[1, 2], &[0, 0]), None);
    assert_eq!(cosine_similarity(&[], &[]), None);
}

#[test]
fn similarity_is_undefined_for_unequal_lengths() {
    assert_eq!(cosine_similarity(&[1, 2, 3], &[1, 2]), None);
    assert_eq!(cosine_similarity(&[1], &[1, 2]), None);
}

#[test]
fn similarity_of_the_longest_vectors() {
    let huge = [i32::MAX; 5];
    assert_eq!(cosine_similarity(&huge, &huge), Some(10_000));
    let many = vec![i32::MIN; 4_096];
    assert_eq!(cosine_similarity(&many, &many), Some(10_000));
    assert_eq!(cosine_similarity(&many, &vec![i32::MAX; 4_096]), Some(-10_000));
    assert_eq!(cosine_similarity_up(&many, &vec![i32::MAX; 4_096]), Some(-10_000));
    let mut bent = vec![i32::MAX; 4_096];
    bent[0] = 0;
    // one component of 4096 is missing: the cosine is the root of 4095 / 4096
    assert_eq!(cosine_similarity(&vec![i32::MAX; 4_096], &bent), Some(9_998));
    assert_eq!(cosine_similarity_up(&vec![i32::MAX; 4_096], &bent), Some(9_999));
    assert_eq!(cosine_similarity(&[200_000; 5], &[200_000; 5]), Some(10_000));
    assert_eq!(cosine_similarity(&[2_000_000_000; 5], &[2_000_000_000; 5]), Some(10_000));
}

#[test]
fn similarity_of_short_vectors_is_the_cosine() {
    // a unit each way against a unit along one axis: half a right angle
    assert_eq!(cosine_similarity(&[1, 1], &[1, 0]), Some(7_071));
    assert_eq!(cosine_similarity(&[1, 0], &[1, 1]), Some(7_071));
    assert_eq!(cosine_similarity(&[2, 1], &[1, 2]), Some(8_000));
    assert_eq!(cosine_similarity(&[1_000, 0], &[1, 1_000]), Some(9));
}

#[test]
fn similarity_does_not_change_with_scale() {
    let b = [1, 0];
    for k in [1, 2, 3, 10, 10_000, 1_000_000] {
        assert_eq!(cosine_similarity(&[k, k], &b), Some(7_071));
        assert_eq!(cosine_similarity(&[k, k], &[k, 0]), Some(7_071));
        assert_eq!(cosine_similarity(&[-k, -k], &b), Some(-7_071));
        assert_eq!(cosine_similarity_up(&[k, k], &b), Some(7_072));
    }
    let a = [12_345, -6_789, 101, 0, 55_555];
    let c = [-4_321, 9_876, 202, 17, 44_444];
    let doubled: Vec<i32> = a.iter().map(|x| 2 * x).collect();
    assert_eq!(cosine_similarity(&doubled, &c), cosine_similarity(&a, &c));
}

#[test]
fn rounding_up_keeps_a_similarity_on_its_side_of_a_threshold() {
    // the cosine is 0.500025: above one half, though it is cut off to one half
    let a = [1, 0];
    let b = [500_025, 866_011];
    assert_eq!(cosine_similarity(&a, &b), Some(5_000));
    assert_eq!(cosine_similarity_up(&a, &b), Some(5_001));
    // exactly one half is not above one half
    let half = [1, 0, 0, 0];
    let other = [1, 1, 1, 1];
    assert_eq!(cosine_similarity(&half, &other), Some(5_000));
    assert_eq!(cosine_similarity_up(&half, &other), Some(5_000));
    // below zero, cutting off is rounding up
    assert_eq!(cosine_similarity(&[10_000, 10_000], &[-10_000, 0]), Some(-7_071));
    assert_eq!(cosine_similarity_up(&[10_000, 10_000], &[-10_000, 0]), Some(-7_071));
    assert_eq!(cosine_similarity_up(&[30_000, 40_000], &[30_000, 40_000]), Some(10_000));
    assert_eq!(cosine_similarity_up(&[0, 0], &[1, 2]), None);
    assert_eq!(cosine_similarity_up(&[1], &[1, 2]), None);
}

#[test]
fn product_of_components() {
    assert_eq!(product(3, -4), -12);
    assert_eq!(product(i32::MIN, i32::MIN), 1i128 << 62);
    assert_eq!(product(i32::MAX, i32::MIN), -((1i128 << 62) - (1i128 << 31)));
}
