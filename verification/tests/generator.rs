use keysearch::rng::XorShift128;
use keysearch::search::SearchConfig;

#[test]
fn generator_reference_outputs() {
    // First outputs for the seed [1, 2, 3, 4], computed independently.
    let mut rng = XorShift128::new([1, 2, 3, 4]);
    let expected: [u32; 8] = [2061, 6175, 4, 8224, 4194381, 8396986, 8388750, 25174430];
    for e in expected {
        assert_eq!(rng.next(), e);
    }
}

#[test]
fn generator_determinism() {
    // Two generators seeded identically agree call for call.
    let mut a = XorShift128::new([0xDEAD_BEEF, 0x0123_4567, 0x89AB_CDEF, 0x0F1E_2D3C]);
    let mut b = XorShift128::new([0xDEAD_BEEF, 0x0123_4567, 0x89AB_CDEF, 0x0F1E_2D3C]);
    for _ in 0..10_000 {
        assert_eq!(a.next(), b.next());
        assert_eq!(a.state, b.state);
    }
}

#[test]
fn lane_seeding_is_deterministic() {
    let mut a = XorShift128::new_lane(987_654_321, 5);
    let mut b = XorShift128::new_lane(987_654_321, 5);
    for _ in 0..10_000 {
        assert_eq!(a.next(), b.next());
    }
}

#[test]
fn lane_seeds_are_the_base_plus_the_lane_index() {
    let r = XorShift128::new_lane(1000, 7);
    assert_eq!(r.state, [1007, 1008, 1009, 1010]);
    // The base plus the index wraps at 64 bits before truncation to 32.
    let w = XorShift128::new_lane(u64::MAX, 0);
    assert_eq!(w.state, [u32::MAX, 0, 1, 2]);
}

#[test]
fn generator_chars_stay_in_the_working_scale() {
    let cfg = SearchConfig::standard();
    let mut rng = XorShift128::new([11, 22, 33, 44]);
    for _ in 0..100_000 {
        let c = rng.next_char(&cfg.scale);
        assert!(cfg.scale.contains(&c));
    }
}

#[test]
fn generator_chars_stay_in_the_first_scale() {
    let cfg = SearchConfig::standard();
    let mut rng = XorShift128::new([55, 66, 77, 88]);
    for _ in 0..100_000 {
        let c = rng.next_char(&cfg.first_scale);
        assert!(cfg.first_scale.contains(&c));
    }
}

#[test]
fn standard_configuration_constants() {
    let cfg = SearchConfig::standard();
    assert_eq!(cfg.prefix, b"111111111111111111111112".to_vec());
    assert_eq!(
        cfg.scale,
        b"13456789ABCDEFGHJKLMNPQRSTUVWXYZabcdefghijkmnopqrstuvwxyz".to_vec()
    );
    assert_eq!(cfg.first_scale, b"23456789ABC".to_vec());
    assert_eq!(cfg.target, b"1PWo".to_vec());
}
