//! The outcome encoder: packing register words and sampled integers.

use shot_runner::results::{convert_sample, convert_samples, convert_shot, convert_shots};

#[test]
fn convert_shot_examples() {
    let cases: Vec<(Vec<u64>, Vec<u8>)> = vec![
        (vec![0, 0, 0, 0, 0, 0, 0, 0], vec![0]),
        (vec![1, 0, 0, 0, 0, 0, 0, 0], vec![128]),
        (vec![0, 1, 0, 0, 0, 0, 0, 0], vec![64]),
        (vec![0, 0, 1, 0, 0, 0, 0, 0], vec![32]),
        (vec![0, 0, 0, 1, 0, 0, 0, 0], vec![16]),
        (vec![0, 0, 0, 0, 1, 0, 0, 0], vec![8]),
        (vec![0, 0, 0, 0, 0, 1, 0, 0], vec![4]),
        (vec![0, 0, 0, 0, 0, 0, 1, 0], vec![2]),
        (vec![0, 0, 0, 0, 0, 0, 0, 1], vec![1]),
        (vec![1, 1, 0, 0, 0, 0, 0, 0], vec![192]),
        (vec![0, 0, 0, 0, 0, 0, 0, 1, 1], vec![1, 128]),
    ];
    for (shot, expected) in cases {
        assert_eq!(convert_shot(&shot), expected);
    }
}

#[test]
fn convert_shot_reads_least_significant_bits_only() {
    // Only each word's least-significant bit carries the logical bit.
    assert_eq!(convert_shot(&vec![2, 4, 6, 8, 0, 0, 0, 0]), vec![0]);
    assert_eq!(convert_shot(&vec![3, 5, 0, 0, 0, 0, 0, 0]), vec![192]);
}

#[test]
fn convert_shot_empty() {
    assert_eq!(convert_shot(&Vec::new()), Vec::<u8>::new());
}

#[test]
fn convert_shots_sets_width_and_rows() {
    let r = convert_shots(vec![vec![1, 0, 1], vec![0, 1, 1]]);
    assert_eq!(r.width, 3);
    assert_eq!(r.array, vec![vec![0b1010_0000], vec![0b0110_0000]]);
}

#[test]
fn convert_sample_examples() {
    let cases: Vec<(usize, u64, Vec<u8>)> = vec![
        (1, 0, vec![0]),
        (2, 0, vec![0, 0]),
        (1, 1, vec![128]),
        (1, 2, vec![64]),
        (1, 4, vec![32]),
        (1, 8, vec![16]),
        (2, 512, vec![0, 64]),
    ];
    for (trunc, sample, expected) in cases {
        assert_eq!(convert_sample(trunc, sample), expected);
    }
}

#[test]
fn convert_sample_truncates_to_eight_bytes() {
    // A sampled word has 64 bits, so at most 8 bytes come back.
    assert_eq!(convert_sample(100, 0), vec![0u8; 8]);
}

#[test]
fn convert_samples_sets_width_and_truncation() {
    let r = convert_samples(2, vec![0, 1, 2, 3]);
    assert_eq!(r.width, 2);
    assert_eq!(r.array, vec![vec![0], vec![128], vec![64], vec![192]]);

    let r = convert_samples(9, vec![1]);
    assert_eq!(r.width, 9);
    assert_eq!(r.array, vec![vec![128, 0]]);
}

#[test]
fn convert_samples_zero_width() {
    let r = convert_samples(0, vec![0, 0]);
    assert_eq!(r.width, 0);
    assert_eq!(r.array, vec![Vec::<u8>::new(), Vec::<u8>::new()]);
}

#[test]
fn packing_pads_with_zero_bits() {
    // 9 logical bits fill two bytes; the 7 padding bits stay zero.
    let r = convert_shot(&vec![1, 1, 1, 1, 1, 1, 1, 1, 1]);
    assert_eq!(r, vec![255, 128]);
}

#[test]
fn packing_round_trips_logically() {
    // Unpack by hand: bit i of the packing is bit 7 - i % 8 of byte
    // i / 8; the first `width` bits must equal the word bits.
    let shot: Vec<u64> = vec![1, 0, 1, 1, 0, 0, 1, 0, 1, 1, 0];
    let packed = convert_shot(&shot);
    for (i, w) in shot.iter().enumerate() {
        let bit = (packed[i / 8] >> (7 - i % 8)) & 1;
        assert_eq!(bit as u64, w & 1);
    }
    // Padding past the width is zero.
    for i in shot.len()..8 * packed.len() {
        let bit = (packed[i / 8] >> (7 - i % 8)) & 1;
        assert_eq!(bit, 0);
    }
}
