use physics_rust::rng::RngComponent;

#[test]
fn the_default_generator_draws_a_fixed_sequence() {
    let mut rng = RngComponent::default();
    assert_eq!(rng.next_u32(), 3805860355);
    assert_eq!(rng.next_u32(), 939121440);
    assert_eq!(rng.next_u32(), 1336707081);
    assert_eq!(rng.state, 0x3b58_3d65_6d77_e1d7);
}

#[test]
fn a_zero_state_stays_zero_and_a_nonzero_one_never_reaches_it() {
    let mut rng = RngComponent { state: 0 };
    assert_eq!(rng.next_u32(), 0);
    assert_eq!(rng.state, 0);
    let mut rng = RngComponent { state: 1 };
    for _ in 0..1000 {
        rng.next_u32();
        assert_ne!(rng.state, 0);
    }
}

