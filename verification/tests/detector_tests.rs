use musical_key_cnn::backend::{
    plan_loading, select_backend, Backend, BackendError, LoadPlan, RuntimeChoice,
};
use musical_key_cnn::detector::{
    check_batch_outputs, check_batch_request, check_cqt_shape, validate_pcm, KeyDetector,
    KeyPreprocessor,
};
use musical_key_cnn::framing::{pad_to_hop, HOP_LENGTH};
use musical_key_cnn::{Error, MAX_COREML_FRAMES};

fn bits(values: &[f32]) -> Vec<u32> {
    values.iter().map(|value| value.to_bits()).collect()
}

#[test]
fn detector_holds_its_model() {
    let mut detector = KeyDetector::new(vec![1u8, 2, 3]);
    assert_eq!(detector.model_mut(), &vec![1u8, 2, 3]);
    detector.model_mut().push(4);
    assert_eq!(detector.model_mut().len(), 4);
    assert_eq!(detector.preprocessor(), KeyPreprocessor::new());
}

#[test]
fn pcm_checks_come_in_order() {
    assert!(validate_pcm(44_100, &bits(&[0.0, 0.5, -0.25])).is_ok());
    match validate_pcm(0, &[]) {
        Err(Error::InvalidAudio(message)) => assert_eq!(message, "sample rate is zero"),
        other => panic!("unexpected {other:?}"),
    }
    match validate_pcm(48_000, &[]) {
        Err(Error::InvalidAudio(message)) => assert_eq!(message, "PCM is empty"),
        other => panic!("unexpected {other:?}"),
    }
    match validate_pcm(48_000, &bits(&[0.0, f32::INFINITY])) {
        Err(Error::InvalidAudio(message)) => assert_eq!(message, "PCM contains non-finite samples"),
        other => panic!("unexpected {other:?}"),
    }
    assert!(validate_pcm(48_000, &bits(&[f32::NAN])).is_err());
}

#[test]
fn batches_must_be_non_empty_and_answered_in_full() {
    assert!(check_batch_request(3).is_ok());
    assert!(matches!(check_batch_request(0), Err(Error::InvalidAudio(_))));
    assert!(check_batch_outputs(2, 2).is_ok());
    match check_batch_outputs(3, 2) {
        Err(Error::InvalidModelOutput(message)) => {
            assert_eq!(message, "model returned 2 key batches for 3 prepared tracks")
        }
        other => panic!("unexpected {other:?}"),
    }
}

#[test]
fn load_plans_follow_the_choice() {
    assert_eq!(
        plan_loading(RuntimeChoice::Auto),
        LoadPlan { load_coreml: true, coreml_optional: true, load_rten: true }
    );
    assert_eq!(
        plan_loading(RuntimeChoice::Coreml),
        LoadPlan { load_coreml: true, coreml_optional: false, load_rten: false }
    );
    assert_eq!(
        plan_loading(RuntimeChoice::Rten),
        LoadPlan { load_coreml: false, coreml_optional: false, load_rten: true }
    );
}

#[test]
fn auto_prefers_coreml_within_its_bound() {
    assert_eq!(select_backend(RuntimeChoice::Auto, 1000, true, true), Ok(Backend::Coreml));
    assert_eq!(
        select_backend(RuntimeChoice::Auto, MAX_COREML_FRAMES, true, true),
        Ok(Backend::Coreml)
    );
    assert_eq!(
        select_backend(RuntimeChoice::Auto, MAX_COREML_FRAMES + 1, true, true),
        Ok(Backend::RtenBeyondCoremlBound)
    );
    assert_eq!(select_backend(RuntimeChoice::Auto, 1000, false, true), Ok(Backend::Rten));
    assert_eq!(
        select_backend(RuntimeChoice::Auto, MAX_COREML_FRAMES + 1, false, false),
        Ok(Backend::RtenBeyondCoremlBound)
    );
    assert_eq!(
        select_backend(RuntimeChoice::Auto, 1000, false, false),
        Err(BackendError::RtenUnavailable)
    );
}

#[test]
fn explicit_choices_use_their_runtime() {
    assert_eq!(select_backend(RuntimeChoice::Rten, 10, true, true), Ok(Backend::Rten));
    assert_eq!(
        select_backend(RuntimeChoice::Rten, 10, true, false),
        Err(BackendError::RtenUnavailable)
    );
    assert_eq!(select_backend(RuntimeChoice::Coreml, 10, true, false), Ok(Backend::Coreml));
    assert_eq!(
        select_backend(RuntimeChoice::Coreml, 10, false, true),
        Err(BackendError::CoremlUnavailable)
    );
    assert_eq!(
        select_backend(RuntimeChoice::Coreml, MAX_COREML_FRAMES + 1, true, true),
        Err(BackendError::TooManyFramesForCoreml)
    );
}

#[test]
fn cqt_shapes_must_have_all_bins_and_a_frame() {
    assert!(check_cqt_shape(105, 1).is_ok());
    match check_cqt_shape(105, 0) {
        Err(Error::InvalidAudio(message)) => {
            assert_eq!(message, "CQT returned shape (105, 0), expected 105 non-empty rows")
        }
        other => panic!("unexpected {other:?}"),
    }
    assert!(matches!(check_cqt_shape(104, 3), Err(Error::InvalidAudio(_))));
}

#[test]
fn short_signals_are_padded_to_one_hop() {
    let mut short = vec![1.0f64, 2.0];
    pad_to_hop(&mut short, 0.0);
    assert_eq!(short.len(), HOP_LENGTH);
    assert_eq!(&short[..3], &[1.0, 2.0, 0.0]);
    let mut long = vec![3u8; HOP_LENGTH + 5];
    pad_to_hop(&mut long, 0);
    assert_eq!(long, vec![3u8; HOP_LENGTH + 5]);
}
