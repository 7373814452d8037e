use rustcaster::rng::{Rng, OUTPUT_MUL, SEED_MIX};

#[test]
fn new_mixes_the_seed() {
    assert_eq!(Rng::new(0).state(), SEED_MIX);
    assert_eq!(Rng::new(SEED_MIX).state(), 0);
    assert_eq!(Rng::new(0xC0FFEE).state(), 0xC0FFEE ^ 0x9E37_79B9_7F4A_7C15);
}

#[test]
fn next_u64_known_sequence() {
    let mut r = Rng::new(0);
    assert_eq!(r.next_u64(), 0x7403d1a28c9a2599);
    assert_eq!(r.state(), 0xdc1b77ae0bf34dad);
    assert_eq!(r.next_u64(), 0xdd70f339ab8ecb5e);
    assert_eq!(r.state(), 0x64f0eeb9026e6076);
    assert_eq!(r.next_u64(), 0x7d974833520ea11e);
    assert_eq!(r.state(), 0x7b07ce91e5906136);
}

#[test]
fn next_u64_output_is_state_times_multiplier() {
    let mut r = Rng::new(12345);
    let v = r.next_u64();
    assert_eq!(v, r.state().wrapping_mul(OUTPUT_MUL));
}

#[test]
fn zero_state_stays_zero() {
    let mut r = Rng::new(SEED_MIX);
    assert_eq!(r.next_u64(), 0);
    assert_eq!(r.state(), 0);
}

#[test]
fn gen_index_of_empty_range_is_zero_and_keeps_state() {
    let mut r = Rng::new(7);
    let before = r.state();
    assert_eq!(r.gen_index(0), 0);
    assert_eq!(r.state(), before);
}

#[test]
fn gen_index_known_values() {
    let mut r = Rng::new(0);
    assert_eq!(r.gen_index(7), 0);
    assert_eq!(r.gen_index(100), 78);
    assert_eq!(r.gen_index(100), 86);
}

#[test]
fn gen_index_stays_in_range() {
    let mut r = Rng::new(0xDEAD_BEEF);
    for len in 1..200usize {
        assert!(r.gen_index(len) < len);
    }
    assert_eq!(r.gen_index(1), 0);
}
