//! Picking and ranking by score.
use ds4::rank::{
    find_leader, keep_top_k, next_random, pick_best, pick_many, rank_descending, take_greatest,
};

fn bits(v: &[f32]) -> Vec<u32> {
    v.iter().map(|x| x.to_bits()).collect()
}

#[test]
fn the_first_greatest_leads() {
    assert_eq!(find_leader(&bits(&[1.0, 5.0, 5.0])), 1);
    assert_eq!(find_leader(&bits(&[-0.0, 0.0])), 0);
    assert_eq!(find_leader(&bits(&[f32::NAN, f32::NEG_INFINITY])), 0);
    assert_eq!(find_leader(&bits(&[f32::NAN, -3.0e38])), 1);
    assert_eq!(find_leader(&[]), 0);
}

#[test]
fn picks_pass_over_what_is_taken() {
    let v = bits(&[1.0, 5.0, 4.0]);
    assert_eq!(pick_best(&v, &[false, true, false]), Some(2));
    assert_eq!(pick_best(&v, &[true, true, true]), None);
    assert_eq!(pick_many(&v, 2), vec![1, 2]);
    assert_eq!(pick_many(&v, 7), vec![1, 2, 0]);
    assert_eq!(take_greatest(&v, 2), vec![false, true, true]);
}

#[test]
fn rankings_are_stable() {
    let v = bits(&[0.0, 2.0, -1.0, 2.0, -0.0, f32::INFINITY, f32::NEG_INFINITY]);
    assert_eq!(rank_descending(&v), vec![5, 1, 3, 0, 4, 2, 6]);
    assert_eq!(rank_descending(&bits(&[f32::NAN, 1.0])), vec![1, 0]);
    assert!(rank_descending(&[]).is_empty());
    let many: Vec<f32> = (0..1000).map(|i| ((i * 7919) % 101) as f32).collect();
    let mut expected: Vec<usize> = (0..1000).collect();
    expected.sort_by(|&a, &b| many[b].partial_cmp(&many[a]).unwrap());
    assert_eq!(rank_descending(&bits(&many)), expected);
}

#[test]
fn only_the_greatest_are_kept() {
    let mut v = bits(&[1.0, 3.0, 2.0, 3.0]);
    keep_top_k(&mut v, 3);
    assert_eq!(v, bits(&[f32::NEG_INFINITY, 3.0, 2.0, 3.0]));
    keep_top_k(&mut v, 1);
    assert_eq!(v, bits(&[f32::NEG_INFINITY, 3.0, f32::NEG_INFINITY, 3.0]));
    let before = v.clone();
    keep_top_k(&mut v, 0);
    keep_top_k(&mut v, 4);
    assert_eq!(v, before);
}

#[test]
fn random_numbers() {
    let mut rng = 42u64;
    let mut expected = 42u64;
    for _ in 0..5 {
        next_random(&mut rng);
        expected ^= expected << 13;
        expected ^= expected >> 17;
        expected ^= expected << 5;
        assert_eq!(rng, expected);
    }
    let mut zero = 0u64;
    next_random(&mut zero);
    assert_eq!(zero, 0);
}

#[test]
fn of_equal_values_the_first_are_taken() {
    let v = bits(&[1.0, 2.0, 2.0, 3.0, 2.0]);
    assert_eq!(take_greatest(&v, 3), vec![false, true, true, true, false]);
}
