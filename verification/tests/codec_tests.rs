use xtrans_codec::compress::compute_sample;
use xtrans_codec::compress::fill_blanks_in_row;
use xtrans_codec::compress::BitOutputSampleTarget;
use xtrans_codec::inflate::sample_to_delta;
use xtrans_codec::process_common::is_interpolated;
use xtrans_codec::process_common::q_value;
use xtrans_codec::process_common::split_at;
use xtrans_codec::process_common::squashed_index;
use xtrans_codec::process_common::UNSET;
use xtrans_codec::sample::Grad;
use xtrans_codec::sample::Sample;
use xtrans_codec::CodecError;
use xtrans_codec::Color;

#[test]
fn bit_diff_reference_points() {
    assert_eq!(Grad(256, 1).bit_diff(), 8);
    assert_eq!(Grad(256, 2).bit_diff(), 7);
    assert_eq!(Grad(256, 3).bit_diff(), 7);
    assert_eq!(Grad(397, 32).bit_diff(), 4);
    assert_eq!(Grad(397, 63).bit_diff(), 3);
    assert_eq!(Grad(397, 64).bit_diff(), 3);
    assert_eq!(Grad(397, 65).bit_diff(), 3);
    assert_eq!(Grad(397, 140).bit_diff(), 2);
    assert_eq!(Grad(397, 141).bit_diff(), 2);
    assert_eq!(Grad(397, 142).bit_diff(), 2);
}

#[test]
fn gradient_update_cases() {
    // Works outside the wrapping range.
    let mut g = Grad(256, 1);
    g.update_from_value(100);
    assert_eq!(g, Grad(356, 2));
    // At the wrapping boundary.
    let mut g = Grad(14343, 63);
    g.update_from_value(100);
    assert_eq!(g, Grad(14443, 64));
    // The wrapping itself.
    let mut g = Grad(14343, 64);
    g.update_from_value(1);
    assert_eq!(g, Grad(7172, 33));
}

#[test]
fn quantize_buckets() {
    assert_eq!(q_value(0), 0);
    assert_eq!(q_value(17), 1);
    assert_eq!(q_value(18), 2);
    assert_eq!(q_value(0x42), 2);
    assert_eq!(q_value(0x43), 3);
    assert_eq!(q_value(0x114), 4);
    assert_eq!(q_value(-17), -1);
    assert_eq!(q_value(-18), -2);
    assert_eq!(q_value(-0x114), -4);
    assert_eq!(q_value(-0x115), -4);
}

#[test]
fn split_at_reference_points() {
    assert_eq!(split_at(0b110011_0101010101, 10), (0b110011, 0b0101010101));
    assert_eq!(split_at(0b1100110101010101, 0), (0b1100110101010101, 0b0));
    assert_eq!(split_at(0b1_100110101010101, 15), (0b1, 0b100110101010101));
}

#[test]
fn squashed_index_pattern() {
    let expected = [0usize, 1, 1, 2, 3, 3, 4, 5, 5, 6, 7, 7];
    for (p, want) in expected.iter().enumerate() {
        assert_eq!(squashed_index(p), *want);
    }
    assert_eq!(squashed_index(767), 511);
}

#[test]
fn interpolation_table() {
    // Odd indices are never interpolated, for any colour.
    for row in 0..6 {
        assert!(!is_interpolated(Color::Red, row, 7));
        assert!(!is_interpolated(Color::Green, row, 7));
        assert!(!is_interpolated(Color::Blue, row, 7));
    }
    assert!(is_interpolated(Color::Red, 0, 0));
    assert!(is_interpolated(Color::Red, 1, 4));
    assert!(!is_interpolated(Color::Red, 1, 2));
    assert!(is_interpolated(Color::Red, 2, 2));
    assert!(is_interpolated(Color::Green, 2, 10));
    assert!(is_interpolated(Color::Green, 5, 0));
    assert!(!is_interpolated(Color::Green, 0, 0));
    assert!(is_interpolated(Color::Blue, 0, 8));
    assert!(is_interpolated(Color::Blue, 1, 2));
    assert!(!is_interpolated(Color::Blue, 1, 4));
    assert!(is_interpolated(Color::Blue, 2, 4));
}

#[test]
fn zero_sample_when_value_matches_prediction() {
    let g = Grad(1, 64);
    assert_eq!(compute_sample(100, 100, &g, false), Ok(Sample::Zero));
    let s = compute_sample(1000, 1000, &Grad(256, 1), false).unwrap();
    assert_eq!(
        s,
        Sample::SplitDelta { upper: 0, lower: 0, lower_bits: 7, invert: false }
    );
    assert_eq!(sample_to_delta(s), 0);
}

#[test]
fn split_sample_round_trips_through_delta() {
    // bit_diff of (256, 1) is 8, so seven fixed bits.
    let wa = 1000u16;
    for actual in [1000u16, 1001, 999, 1100, 900, 1255] {
        let g = Grad(256, 1);
        for gneg in [false, true] {
            let s = compute_sample(wa, actual, &g, gneg).unwrap();
            let delta = sample_to_delta(s);
            let rebuilt = if gneg {
                (wa as i32 - delta).rem_euclid(1 << 14)
            } else {
                (wa as i32 + delta).rem_euclid(1 << 14)
            };
            assert_eq!(rebuilt as u16, actual);
        }
    }
}

#[test]
fn escape_sample_round_trips_through_delta() {
    // A huge delta against a zero-history gradient takes the escape shape.
    let g = Grad(1, 64);
    assert_eq!(g.bit_diff(), 0);
    let s = compute_sample(0, 5000, &g, false).unwrap();
    match s {
        Sample::EntireDelta(value, invert) => {
            assert_eq!(value, 4999);
            assert!(invert);
        }
        _ => panic!("expected the escape shape"),
    }
    assert_eq!(sample_to_delta(s), 5000);
}

#[test]
fn large_delta_wraps_through_the_escape_shape() {
    // actual - prediction is 9000; the coded delta is its reduced
    // representative -7384, which fits the 13-bit escape literal and
    // reconstructs to 9000 through the 14-bit wrap.
    let g = Grad(1, 64);
    let s = compute_sample(0, 9000, &g, false).unwrap();
    match s {
        Sample::EntireDelta(value, invert) => {
            assert_eq!(value, 7383);
            assert!(!invert);
        }
        _ => panic!("expected the escape shape"),
    }
    let delta = sample_to_delta(s);
    assert_eq!(delta, -7384);
    assert_eq!((0i32 + delta).rem_euclid(1 << 14), 9000);
}

#[test]
fn unrepresentable_sample_is_an_invariant_violation() {
    // A zero code length cannot carry a small nonzero delta.
    let g = Grad(1, 64);
    assert_eq!(g.bit_diff(), 0);
    assert_eq!(
        compute_sample(100, 110, &g, false),
        Err(CodecError::InvariantViolation)
    );
}

#[test]
fn writer_emits_exact_bytes() {
    let mut out = BitOutputSampleTarget::wrap();
    for _ in 0..8 {
        out.write(Sample::Zero);
    }
    out.finalize_block();
    let bytes = out.into_bytes();
    assert_eq!(bytes, vec![0xFF, 0, 0, 0, 0, 0, 0, 0]);
}

#[test]
fn writer_split_sample_layout() {
    // upper 2 -> "001", lower 0b101 in 3 bits, invert bit 1: seven bits
    // 0011011, padded with a zero, then zero bytes to eight.
    let mut out = BitOutputSampleTarget::wrap();
    out.write(Sample::SplitDelta { upper: 2, lower: 0b101, lower_bits: 3, invert: true });
    out.finalize_block();
    let bytes = out.into_bytes();
    assert_eq!(bytes[0], 0b0011_0110);
    assert_eq!(bytes.len(), 8);
    assert!(bytes[1..].iter().all(|b| *b == 0));
}

#[test]
fn gap_fill_rejects_odd_sentinels() {
    let zeros = vec![0u16; 512];
    let mut row = vec![0u16; 512];
    row[3] = UNSET;
    let r = fill_blanks_in_row(&mut row, &zeros, &zeros);
    assert_eq!(r, Err(CodecError::InvariantViolation));
    // The row is left untouched on failure.
    assert_eq!(row[3], UNSET);
}

#[test]
fn gap_fill_uses_even_predictor() {
    let mut rprev = vec![100u16; 512];
    rprev[5] = 140;
    let rprevprev = vec![120u16; 512];
    let mut row = vec![7u16; 512];
    row[4] = UNSET;
    fill_blanks_in_row(&mut row, &rprev, &rprevprev).unwrap();
    // north = 100, northwest = 100, northeast = 140, very_north = 120:
    // northeast is strictly farthest, so (northwest + very_north + 2n)/4.
    assert_eq!(row[4], (100 + 120 + 200) / 4);
    assert_eq!(row[6], 7);
}

#[test]
fn test_linear_gain_to_coefs() {}
