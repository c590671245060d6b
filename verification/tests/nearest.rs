use raytracer::nearest::nearest;

#[test]
fn no_trial_gives_no_hit() {
    assert_eq!(nearest(&[], 100), None);
    assert_eq!(nearest(&[None, None], 100), None);
}

#[test]
fn the_least_key_is_the_nearest() {
    assert_eq!(nearest(&[Some(5), Some(3), Some(9)], 100), Some(1));
    assert_eq!(nearest(&[None, Some(7), None, Some(2)], 100), Some(3));
    assert_eq!(nearest(&[Some(0)], 1), Some(0));
}

#[test]
fn the_first_of_equal_hits_wins() {
    assert_eq!(nearest(&[Some(4), Some(2), Some(2), Some(4)], 100), Some(1));
    assert_eq!(nearest(&[Some(2), None, Some(2)], 100), Some(0));
}

#[test]
fn hits_at_or_beyond_the_limit_do_not_count() {
    assert_eq!(nearest(&[Some(100), Some(101)], 100), None);
    assert_eq!(nearest(&[Some(100), Some(99)], 100), Some(1));
    assert_eq!(nearest(&[Some(0)], 0), None);
    assert_eq!(nearest(&[Some(u64::MAX)], u64::MAX), None);
}

#[test]
fn distances_are_ordered_by_their_bits() {
    let distances = [4.0f64, 0.5, f64::INFINITY, 0.25, f64::NAN, 0.25];
    let keys: Vec<Option<u64>> = distances.iter().map(|d| Some(d.to_bits())).collect();
    assert_eq!(nearest(&keys, f64::INFINITY.to_bits()), Some(3));
    let far = [Some(f64::INFINITY.to_bits()), Some(f64::NAN.to_bits())];
    assert_eq!(nearest(&far, f64::INFINITY.to_bits()), None);
    // an occluder counts only where it is closer than the light
    assert_eq!(nearest(&keys, 0.25f64.to_bits()), None);
    assert_eq!(nearest(&keys, 0.3f64.to_bits()), Some(3));
}
