use carlo_mc::rng::{decode_rng_position, encode_rng_position};
use carlo_mc::{checkpoint_path, DeterministicRng};

#[test]
fn rng_resume() {
    let mut rng = DeterministicRng::seed_from_u64(3);
    let _ = rng.try_next_u64();
    let position = rng.position();
    let expected = rng.try_next_u64().unwrap();
    rng.set_position(position);
    assert_eq!(rng.try_next_u64().unwrap(), expected);
}

#[test]
fn rng_position_uses_all_u128_bits() {
    let mut rng = DeterministicRng::seed_from_u64(3);
    rng.set_position(7);
    let low = rng.try_next_u64().unwrap();
    rng.set_position((1_u128 << 64) | 7);
    let high = rng.try_next_u64().unwrap();
    assert_ne!(low, high);
    assert_eq!(rng.position(), (1_u128 << 64) | 8);
}

#[test]
fn checkpoint_name_and_rng_position_are_preserved() {
    assert_eq!(checkpoint_path("x", 0), "x/task0001/run0001.dump.h5");
    let position = (u128::from(u64::MAX) << 64) | 17;
    assert_eq!(decode_rng_position(encode_rng_position(position)), position);
}

#[test]
fn stream_has_known_words() {
    let mut rng = DeterministicRng::seed_from_u64(0);
    assert_eq!(rng.try_next_u64().unwrap(), 0xE220_A839_7B1D_CDAF);
    assert_eq!(rng.try_next_u64().unwrap(), 0x6E78_9E6A_A1B9_65F4);
    assert_eq!(rng.try_next_u64().unwrap(), 0x06C4_5D18_8009_454F);
    let mut rng = DeterministicRng::seed_from_u64(1234567);
    assert_eq!(rng.try_next_u64().unwrap(), 6457827717110365317);
    assert_eq!(rng.try_next_u64().unwrap(), 3203168211198807973);
}

#[test]
fn halves_and_bytes_come_from_the_same_words() {
    let mut words = DeterministicRng::from_seed([3, 0, 0, 0, 0, 0, 0, 0]);
    let first = words.try_next_u64().unwrap();
    let second = words.try_next_u64().unwrap();
    let third = words.try_next_u64().unwrap();

    let mut rng = DeterministicRng::seed_from_u64(3);
    assert_eq!(rng.try_next_u32().unwrap(), first as u32);
    assert_eq!(rng.position(), 1);

    let mut rng = DeterministicRng::seed_from_u64(3);
    let mut bytes = [0u8; 19];
    rng.try_fill_bytes(&mut bytes).unwrap();
    assert_eq!(bytes[..8], first.to_le_bytes());
    assert_eq!(bytes[8..16], second.to_le_bytes());
    assert_eq!(bytes[16..], third.to_le_bytes()[..3]);
    assert_eq!(rng.position(), 3);
    rng.try_fill_bytes(&mut []).unwrap();
    assert_eq!(rng.position(), 3);
}

#[test]
fn position_wraps_at_the_end() {
    let mut rng = DeterministicRng::seed_from_u64(5);
    let first = rng.try_next_u64().unwrap();
    rng.set_position(u128::MAX);
    let _ = rng.try_next_u64();
    assert_eq!(rng.position(), 0);
    assert_eq!(rng.try_next_u64().unwrap(), first);
}

#[test]
fn position_words_are_low_and_high() {
    assert_eq!(encode_rng_position((9_u128 << 64) | 7), [7, 9]);
    assert_eq!(decode_rng_position([7, 9]), (9_u128 << 64) | 7);
    assert_eq!(encode_rng_position(0), [0, 0]);
    assert_eq!(decode_rng_position([u64::MAX, u64::MAX]), u128::MAX);
}

#[test]
fn no_word_repeats_within_a_block() {
    for block in [0_u128, 1, u128::from(u64::MAX)] {
        let mut rng = DeterministicRng::seed_from_u64(11);
        let mut words = Vec::new();
        for start in [0_u128, 1 << 40, u128::from(u64::MAX) - 99] {
            rng.set_position((block << 64) | start);
            words.extend((0..100).map(|_| rng.try_next_u64().unwrap()));
        }
        words.sort();
        words.dedup();
        assert_eq!(words.len(), 300);
    }
}
