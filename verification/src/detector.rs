//! The key detector: a model together with the fixed preprocessor, and the
//! checks that guard its input and its batches.
use vstd::prelude::*;

use crate::chunk::FREQUENCY_BINS;
use crate::ieee::{is_finite, is_finite_bits, lemma_finite_exactly_below_full_exponent};
use crate::Error;

verus! {

/// The fixed MusicalKeyCNN preprocessor (44.1 kHz input, 105-bin
/// log-magnitude constant-Q spectrogram with a hop of 8,820 samples).
#[derive(Clone, Copy, Debug, PartialEq, Eq, Structural)]
pub struct KeyPreprocessor;

impl KeyPreprocessor {
    /// The preprocessor; it has no settings.
    pub fn new() -> (preprocessor: Self)
        ensures
            preprocessor == KeyPreprocessor,
    {
        KeyPreprocessor
    }
}

/// A key detector running `model` on the spectrograms of the preprocessor.
pub struct KeyDetector<M> {
    model: M,
    preprocessor: KeyPreprocessor,
}

impl<M> KeyDetector<M> {
    /// The model the detector runs.
    pub closed spec fn detector_model(self) -> M {
        self.model
    }

    /// A detector for `model`.
    pub fn new(model: M) -> (detector: Self)
        ensures
            detector.detector_model() == model,
    {
        KeyDetector { model, preprocessor: KeyPreprocessor::new() }
    }

    /// The detector's model, for the caller to run or adjust.
    pub fn model_mut(&mut self) -> (model: &mut M)
        ensures
            *model == old(self).detector_model(),
            final(self).detector_model() == *final(model),
    {
        &mut self.model
    }

    /// The detector's preprocessor.
    pub fn preprocessor(&self) -> (preprocessor: KeyPreprocessor)
        ensures
            preprocessor == KeyPreprocessor,
    {
        self.preprocessor
    }
}

/// Whether mono PCM can be analysed: a non-zero sample rate, at least one
/// sample, and finite samples only.
pub open spec fn valid_pcm(sample_rate: u32, sample_bits: Seq<u32>) -> bool {
    &&& sample_rate != 0
    &&& sample_bits.len() > 0
    &&& forall|i: int| 0 <= i < sample_bits.len() ==> is_finite_bits(#[trigger] sample_bits[i])
}

/// PCM is accepted exactly when its sample rate is not zero (any other rate
/// is later resampled), it holds a sample, and no sample has an all-ones
/// exponent field (no infinity, no NaN).
pub proof fn lemma_pcm_accepted_exactly(sample_rate: u32, sample_bits: Seq<u32>)
    ensures
        valid_pcm(sample_rate, sample_bits) <==> {
            &&& sample_rate > 0
            &&& sample_bits.len() >= 1
            &&& forall|i: int|
                0 <= i < sample_bits.len() ==> (#[trigger] sample_bits[i] & 0x7f80_0000u32)
                    != 0x7f80_0000u32
        },
{
    assert forall|i: int| 0 <= i < sample_bits.len() implies (is_finite_bits(
        #[trigger] sample_bits[i],
    ) <==> (sample_bits[i] & 0x7f80_0000u32) != 0x7f80_0000u32) by {
        lemma_finite_exactly_below_full_exponent(sample_bits[i]);
    }
}

/// Checks mono PCM, given by the bit patterns of its `f32` samples, before
/// preprocessing: the sample rate must not be zero, the PCM must not be
/// empty, and every sample must be finite, refused as invalid audio in that
/// order.
pub fn validate_pcm(sample_rate: u32, sample_bits: &[u32]) -> (result: Result<(), Error>)
    ensures
        result is Ok <==> valid_pcm(sample_rate, sample_bits@),
        sample_rate == 0 ==> (result matches Err(Error::InvalidAudio(m)) && m@
            == "sample rate is zero"@),
        sample_rate != 0 && sample_bits@.len() == 0 ==> (result matches Err(
            Error::InvalidAudio(m),
        ) && m@ == "PCM is empty"@),
        sample_rate != 0 && sample_bits@.len() > 0 && !valid_pcm(sample_rate, sample_bits@)
            ==> (result matches Err(Error::InvalidAudio(m)) && m@
            == "PCM contains non-finite samples"@),
{
    if sample_rate == 0 {
        return Err(Error::InvalidAudio(String::from_str("sample rate is zero")));
    }
    if sample_bits.len() == 0 {
        return Err(Error::InvalidAudio(String::from_str("PCM is empty")));
    }
    let mut i: usize = 0;
    while i < sample_bits.len()
        invariant
            sample_rate != 0,
            sample_bits@.len() > 0,
            i <= sample_bits@.len(),
            forall|j: int| 0 <= j < i ==> is_finite_bits(#[trigger] sample_bits@[j]),
        decreases sample_bits@.len() - i,
    {
        if !is_finite(sample_bits[i]) {
            return Err(Error::InvalidAudio(String::from_str("PCM contains non-finite samples")));
        }
        i = i + 1;
    }
    Ok(())
}

/// Checks the constant-Q transform's output shape: 105 rows of at least one
/// frame, else invalid audio.
pub fn check_cqt_shape(rows: usize, columns: usize) -> (result: Result<(), Error>)
    ensures
        result is Ok <==> (rows == FREQUENCY_BINS && columns > 0),
        result matches Err(e) ==> e is InvalidAudio,
{
    if rows != FREQUENCY_BINS || columns == 0 {
        let mut message = String::from_str("CQT returned shape (");
        message.append(rows.to_string().as_str());
        message.append(", ");
        message.append(columns.to_string().as_str());
        message.append("), expected 105 non-empty rows");
        return Err(Error::InvalidAudio(message));
    }
    Ok(())
}

/// Checks a batch request: a batch of prepared tracks must not be empty.
pub fn check_batch_request(track_count: usize) -> (result: Result<(), Error>)
    ensures
        result is Ok <==> track_count > 0,
        track_count == 0 ==> (result matches Err(Error::InvalidAudio(m)) && m@
            == "key inference batch is empty"@),
{
    if track_count == 0 {
        return Err(Error::InvalidAudio(String::from_str("key inference batch is empty")));
    }
    Ok(())
}

/// Checks a batch answer: the runtime must return one output set per
/// prepared track, else the answer is invalid model output.
pub fn check_batch_outputs(track_count: usize, output_count: usize) -> (result: Result<(), Error>)
    ensures
        result is Ok <==> output_count == track_count,
        result matches Err(e) ==> e is InvalidModelOutput,
{
    if output_count != track_count {
        let mut message = String::from_str("model returned ");
        message.append(output_count.to_string().as_str());
        message.append(" key batches for ");
        message.append(track_count.to_string().as_str());
        message.append(" prepared tracks");
        return Err(Error::InvalidModelOutput(message));
    }
    Ok(())
}

} // verus!
