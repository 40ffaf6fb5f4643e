use musical_key_cnn::framing::{
    basis_agrees, fft_size_for, filter_placement, frame_count, frame_input, halves_after_octave,
    octave_band, octave_count, plan_resample, validate_samples, ResampleStep,
};
use musical_key_cnn::ieee::is_finite_64;
use musical_key_cnn::magnitude::{stack_octaves, CqtError, Magnitude};

fn matrix(rows: usize, columns: usize, first: u32) -> Magnitude<u32> {
    let data: Vec<u32> = (0..(rows * columns) as u32).map(|value| first + value).collect();
    Magnitude::from_vec(data, rows, columns).expect("consistent shape")
}

#[test]
fn matrices_keep_their_shape() {
    let mut m = Magnitude::zeros(2, 3, 0u32).expect("small matrix");
    assert_eq!(m.shape(), (2, 3));
    assert_eq!(m.as_slice(), &[0, 0, 0, 0, 0, 0]);
    assert!(m.set(1, 2, 7));
    assert!(!m.set(2, 0, 9));
    assert!(!m.set(0, 3, 9));
    assert_eq!(m.get(1, 2), 7);
    assert_eq!(m.row(1), Some(&[0u32, 0, 7][..]));
    assert_eq!(m.row(2), None);
    assert!(Magnitude::zeros(usize::MAX, 2, 0u8).is_err());
    assert!(Magnitude::from_vec(vec![1u8, 2, 3], 2, 2).is_none());
    let empty = Magnitude::zeros(3, 0, 0u8).expect("no columns");
    assert_eq!(empty.row(10), Some(&[][..]));
}

#[test]
fn mapping_keeps_the_shape() {
    let m = matrix(2, 2, 1);
    let doubled = m.map(|value| value * 2);
    assert_eq!(doubled.shape(), (2, 2));
    assert_eq!(doubled.as_slice(), &[2, 4, 6, 8]);
}

#[test]
fn cqt_errors_report_their_kind() {
    assert_eq!(
        CqtError::InvalidParameters("x".to_owned()).to_string(),
        "invalid parameters: x"
    );
    assert_eq!(CqtError::Resample("y".to_owned()).to_string(), "resampling failed: y");
    assert_eq!(CqtError::Fft("z".to_owned()).to_string(), "FFT failed: z");
}

#[test]
fn octaves_stack_from_the_top_down() {
    let responses: Vec<(Magnitude<u32>, usize)> = (0..5)
        .map(|octave| {
            let bins = if octave == 4 { 9 } else { 24 };
            (matrix(bins, 4 + octave, 1000 * octave as u32), bins)
        })
        .collect();
    let stacked = stack_octaves(&responses, 0).expect("well-formed octaves");
    assert_eq!(stacked.shape(), (105, 4));
    assert_eq!(stacked.get(0, 0), 4000);
    assert_eq!(stacked.get(8, 3), 4000 + 8 * 8 + 3);
    assert_eq!(stacked.get(9, 0), 3000);
    assert_eq!(stacked.get(104, 2), 23 * 4 + 2);
}

#[test]
fn octaves_keep_their_last_rows_and_empty_rows_stay_zero() {
    let responses = vec![(matrix(3, 2, 10), 2)];
    let stacked = stack_octaves(&responses, 99).expect("one octave");
    assert_eq!(stacked.shape(), (105, 2));
    assert_eq!(stacked.get(0, 0), 12);
    assert_eq!(stacked.get(1, 1), 15);
    assert_eq!(stacked.get(2, 0), 99);
    assert_eq!(stacked.get(104, 1), 99);
}

#[test]
fn stacking_fails_without_octaves_or_rows() {
    let none: Vec<(Magnitude<u32>, usize)> = Vec::new();
    assert!(matches!(stack_octaves(&none, 0), Err(CqtError::InvalidParameters(_))));
    let short = vec![(matrix(2, 3, 0), 5)];
    assert!(matches!(stack_octaves(&short, 0), Err(CqtError::InvalidParameters(_))));
}

#[test]
fn octave_bands_cover_the_bins() {
    assert_eq!(octave_count(), 5);
    assert_eq!(octave_band(0), (81, 105));
    assert_eq!(octave_band(1), (57, 81));
    assert_eq!(octave_band(3), (9, 33));
    assert_eq!(octave_band(4), (0, 9));
    assert_eq!(octave_band(5), (0, 0));
    assert_eq!(octave_band(usize::MAX), (0, 0));
}

#[test]
fn frames_are_one_per_hop_plus_one() {
    assert_eq!(frame_count(44_100, 8_820), Some(6));
    assert_eq!(frame_count(8_819, 8_820), Some(1));
    assert_eq!(frame_count(10, 0), None);
    assert_eq!(frame_count(usize::MAX, 1), None);
}

#[test]
fn frames_read_padded_samples() {
    let samples = [1u8, 2, 3, 4, 5];
    assert_eq!(frame_input(&samples, 0, 2, 4, 0), Some(vec![0, 0, 1, 2]));
    assert_eq!(frame_input(&samples, 4, 2, 4, 0), Some(vec![3, 4, 5, 0]));
    assert_eq!(frame_input(&samples, 20, 2, 2, 9), Some(vec![9, 9]));
    assert_eq!(frame_input(&samples, usize::MAX, 0, 2, 0), None);
    assert_eq!(frame_input(&samples, usize::MAX, 0, 1, 0), Some(vec![0]));
}

#[test]
fn transform_input_must_be_finite_and_non_empty() {
    let bits = |values: &[f64]| values.iter().map(|value| value.to_bits()).collect::<Vec<_>>();
    assert!(validate_samples(&bits(&[0.0, -1.5, 3.0])).is_ok());
    assert!(matches!(validate_samples(&[]), Err(CqtError::InvalidParameters(_))));
    assert!(matches!(
        validate_samples(&bits(&[0.0, f64::NAN])),
        Err(CqtError::InvalidParameters(_))
    ));
    assert!(is_finite_64(f64::MAX.to_bits()));
    assert!(!is_finite_64(f64::NEG_INFINITY.to_bits()));
}

#[test]
fn resampling_requests_are_checked() {
    assert_eq!(plan_resample(0, 44_100, 22_050), Err("input is empty".to_owned()));
    assert_eq!(plan_resample(5, 0, 22_050), Err("sample rates must be positive".to_owned()));
    assert_eq!(plan_resample(5, 44_100, 0), Err("sample rates must be positive".to_owned()));
    assert_eq!(plan_resample(5, 48_000, 48_000), Ok(ResampleStep::Copy));
    assert_eq!(plan_resample(5, 48_000, 44_100), Ok(ResampleStep::Convert));
}

#[test]
fn fft_layout_follows_the_filters() {
    assert_eq!(fft_size_for(0), Some(1));
    assert_eq!(fft_size_for(1), Some(1));
    assert_eq!(fft_size_for(5), Some(8));
    assert_eq!(fft_size_for(1024), Some(1024));
    assert_eq!(fft_size_for(1025), Some(2048));
    assert_eq!(fft_size_for(usize::MAX), None);
    for n in [3usize, 100, 4097, 1 << 40] {
        assert_eq!(fft_size_for(n), n.checked_next_power_of_two());
    }
    assert_eq!(filter_placement(16, 10), Some((3, 13)));
    assert_eq!(filter_placement(4, 10), Some((0, 10)));
    assert!(basis_agrees((5, 9), (5, 9), 16, 4));
    assert!(!basis_agrees((5, 9), (5, 8), 16, 4));
    assert!(!basis_agrees((5, 9), (5, 9), 32, 4));
    assert!(!basis_agrees((5, 9), (5, 9), 16, 0));
    assert!(halves_after_octave(0, 5, 8820));
    assert!(!halves_after_octave(4, 5, 8820));
    assert!(!halves_after_octave(1, 5, 2205));
}

#[test]
fn stacking_errors_name_their_cause() {
    let none: Vec<(Magnitude<u32>, usize)> = Vec::new();
    match stack_octaves(&none, 0) {
        Err(CqtError::InvalidParameters(message)) => assert_eq!(message, "CQT produced no octaves"),
        other => panic!("unexpected {:?}", other.map(|m| m.shape())),
    }
    let short = vec![(matrix(2, 3, 0), 5)];
    match stack_octaves(&short, 0) {
        Err(CqtError::InvalidParameters(message)) => {
            assert_eq!(message, "CQT octave row is missing")
        }
        other => panic!("unexpected {:?}", other.map(|m| m.shape())),
    }
    match Magnitude::zeros(usize::MAX, 3, 0u8) {
        Err(CqtError::InvalidParameters(message)) => assert_eq!(message, "CQT matrix size overflow"),
        other => panic!("unexpected {:?}", other.map(|m| m.shape())),
    }
    let bits = |values: &[f64]| values.iter().map(|value| value.to_bits()).collect::<Vec<_>>();
    match validate_samples(&bits(&[f64::INFINITY])) {
        Err(CqtError::InvalidParameters(message)) => {
            assert_eq!(message, "input contains non-finite samples")
        }
        other => panic!("unexpected {other:?}"),
    }
}
