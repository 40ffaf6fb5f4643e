use musical_key_cnn::estimate::{
    logits_from_output, logits_from_outputs, select_key, take_output, OutputTensor,
};
use musical_key_cnn::ieee::{is_finite, order_key};
use musical_key_cnn::{Error, KeyMode};

fn bits(values: &[f32]) -> Vec<u32> {
    values.iter().map(|value| value.to_bits()).collect()
}

fn logits_tensor(values: &[f32], shape: Vec<usize>) -> OutputTensor {
    OutputTensor { shape, value_bits: bits(values) }
}

#[test]
fn well_formed_logits_are_returned_unchanged() {
    let values: Vec<f32> = (0..24).map(|i| i as f32 - 11.5).collect();
    let logits = logits_from_output(Some(logits_tensor(&values, vec![1, 24]))).expect("valid");
    assert_eq!(logits, bits(&values));
}

#[test]
fn missing_or_malformed_logits_are_invalid_model_output() {
    let values = vec![0.25f32; 24];
    assert!(matches!(logits_from_output(None), Err(Error::InvalidModelOutput(_))));
    assert!(matches!(
        logits_from_output(Some(logits_tensor(&values, vec![24]))),
        Err(Error::InvalidModelOutput(_))
    ));
    assert!(matches!(
        logits_from_output(Some(logits_tensor(&values, vec![1, 24, 1]))),
        Err(Error::InvalidModelOutput(_))
    ));
    assert!(matches!(
        logits_from_output(Some(logits_tensor(&values[..23], vec![1, 24]))),
        Err(Error::InvalidModelOutput(_))
    ));
    let mut with_nan = values.clone();
    with_nan[5] = f32::NAN;
    assert!(matches!(
        logits_from_output(Some(logits_tensor(&with_nan, vec![1, 24]))),
        Err(Error::InvalidModelOutput(_))
    ));
    let mut with_infinity = values.clone();
    with_infinity[23] = f32::NEG_INFINITY;
    assert!(matches!(
        logits_from_output(Some(logits_tensor(&with_infinity, vec![1, 24]))),
        Err(Error::InvalidModelOutput(_))
    ));
}

#[test]
fn finiteness_follows_the_exponent_field() {
    for value in [0.0f32, -0.0, 1.0, -3.5, f32::MAX, f32::MIN, f32::MIN_POSITIVE, 1e-45] {
        assert!(is_finite(value.to_bits()), "{value} is finite");
    }
    for value in [f32::NAN, f32::INFINITY, f32::NEG_INFINITY] {
        assert!(!is_finite(value.to_bits()), "{value} is not finite");
    }
}

#[test]
fn order_keys_follow_total_cmp() {
    let values = [
        f32::NEG_INFINITY,
        -2.5,
        -1.0,
        -0.0,
        0.0,
        1e-40,
        0.5,
        2.0,
        f32::INFINITY,
        f32::NAN,
    ];
    for left in values {
        for right in values {
            assert_eq!(
                order_key(left.to_bits()).cmp(&order_key(right.to_bits())),
                left.total_cmp(&right),
                "{left} vs {right}"
            );
        }
    }
}

#[test]
fn the_most_probable_class_and_the_runner_up_are_selected() {
    let mut probabilities = vec![0.01f32; 24];
    probabilities[19] = 0.6;
    probabilities[4] = 0.2;
    let selection = select_key(&bits(&probabilities)).expect("24 probabilities");
    assert_eq!(selection.best_class, 19);
    assert_eq!(selection.runner_up, Some(4));
    assert_eq!(selection.key.to_string(), "8B");
    assert_eq!(selection.key.mode(), KeyMode::Major);
}

#[test]
fn ties_go_to_the_lowest_class() {
    let probabilities = vec![1.0f32 / 24.0; 24];
    let selection = select_key(&bits(&probabilities)).expect("24 probabilities");
    assert_eq!(selection.best_class, 0);
    assert_eq!(selection.runner_up, Some(1));
    assert_eq!(selection.key.to_string(), "1A");
}

#[test]
fn runner_up_ties_with_the_best() {
    let mut probabilities = vec![0.0f32; 24];
    probabilities[7] = 0.5;
    probabilities[3] = 0.5;
    let selection = select_key(&bits(&probabilities)).expect("24 probabilities");
    assert_eq!(selection.best_class, 3);
    assert_eq!(selection.runner_up, Some(7));
}

#[test]
fn a_single_probability_has_no_runner_up() {
    let selection = select_key(&bits(&[0.3])).expect("one probability");
    assert_eq!(selection.best_class, 0);
    assert_eq!(selection.runner_up, None);
}

#[test]
fn no_probabilities_or_an_out_of_range_best_class_are_refused() {
    assert!(matches!(select_key(&[]), Err(Error::InvalidModelOutput(_))));
    let mut probabilities = vec![0.0f32; 25];
    probabilities[24] = 1.0;
    assert!(matches!(select_key(&bits(&probabilities)), Err(Error::InvalidModelOutput(_))));
}

#[test]
fn malformed_logit_errors_give_count_and_shape() {
    let values = vec![0.25f32; 3];
    match logits_from_output(Some(logits_tensor(&values, vec![1, 3]))) {
        Err(Error::InvalidModelOutput(message)) => assert_eq!(
            message,
            "expected [1, 24] finite logits, got 3 values with shape [1, 3]"
        ),
        other => panic!("unexpected {other:?}"),
    }
    match logits_from_output(None) {
        Err(Error::InvalidModelOutput(message)) => {
            assert_eq!(message, "model did not return \"logits\"")
        }
        other => panic!("unexpected {other:?}"),
    }
}

#[test]
fn the_logits_output_is_found_by_name() {
    let values: Vec<f32> = (0..24).map(|i| i as f32).collect();
    let outputs = vec![
        ("features".to_owned(), logits_tensor(&[1.0, 2.0], vec![2])),
        ("logits".to_owned(), logits_tensor(&values, vec![1, 24])),
    ];
    assert_eq!(logits_from_outputs(outputs).expect("present"), bits(&values));
    let missing = vec![("features".to_owned(), logits_tensor(&values, vec![1, 24]))];
    assert!(matches!(logits_from_outputs(missing), Err(Error::InvalidModelOutput(_))));
    let named = vec![
        ("a".to_owned(), logits_tensor(&[1.0], vec![1])),
        ("b".to_owned(), logits_tensor(&[2.0], vec![1])),
    ];
    let taken = take_output(named, "b").expect("named b");
    assert_eq!(taken.value_bits, bits(&[2.0]));
}
