//! The framing of the constant-Q transform: which frequency bins each octave
//! computes, how many frames a signal yields, and which samples a frame
//! reads.
use vstd::prelude::*;

use crate::chunk::FREQUENCY_BINS;
use crate::ieee::{is_finite_64, is_finite_bits_64, lemma_finite_exactly_below_full_exponent_64};
use crate::magnitude::CqtError;

verus! {

/// Frequency bins per octave.
pub const BINS_PER_OCTAVE: usize = 24;

/// Samples between successive frames at the model's sample rate.
pub const HOP_LENGTH: usize = 8820;

/// The sample rate the model's spectrogram is computed at.
pub const MODEL_SAMPLE_RATE: u32 = 44100;

/// The number of octaves that cover the 105 bins, the last one partly.
pub open spec fn octave_count_spec() -> int {
    (FREQUENCY_BINS + BINS_PER_OCTAVE - 1) / (BINS_PER_OCTAVE as int)
}

/// The first bin of octave `octave`, counted from the highest octave down.
pub open spec fn band_start(octave: int) -> int {
    if (octave + 1) * BINS_PER_OCTAVE >= FREQUENCY_BINS {
        0
    } else {
        FREQUENCY_BINS - (octave + 1) * BINS_PER_OCTAVE
    }
}

/// The bin after the last of octave `octave`.
pub open spec fn band_end(octave: int) -> int {
    if octave * BINS_PER_OCTAVE >= FREQUENCY_BINS {
        0
    } else {
        FREQUENCY_BINS - octave * BINS_PER_OCTAVE
    }
}

/// The number of octaves the transform computes.
pub fn octave_count() -> (count: usize)
    ensures
        count == octave_count_spec(),
        count == 5,
{
    FREQUENCY_BINS / BINS_PER_OCTAVE + if FREQUENCY_BINS % BINS_PER_OCTAVE == 0 {
        0
    } else {
        1
    }
}

/// The bins `start..end` of octave `octave` (octave 0 is the highest).
pub fn octave_band(octave: usize) -> (band: (usize, usize))
    ensures
        band.0 == band_start(octave as int),
        band.1 == band_end(octave as int),
{
    let upper = match octave.saturating_add(1).checked_mul(BINS_PER_OCTAVE) {
        Some(product) => product,
        None => usize::MAX,
    };
    let lower = match octave.checked_mul(BINS_PER_OCTAVE) {
        Some(product) => product,
        None => usize::MAX,
    };
    (FREQUENCY_BINS.saturating_sub(upper), FREQUENCY_BINS.saturating_sub(lower))
}

/// The octave bands tile the bins from the top down: octave 0 ends at the
/// last bin, each octave starts where the one below it ends, the last starts
/// at bin 0, and every octave but the last spans a full 24 bins.
pub proof fn lemma_bands_tile_bins()
    ensures
        octave_count_spec() == 5,
        band_end(0) == FREQUENCY_BINS,
        band_start(4) == 0,
        forall|o: int| 0 <= o < 4 ==> #[trigger] band_start(o) == band_end(o + 1),
        forall|o: int| 0 <= o < 4 ==> band_end(o) - band_start(o) == BINS_PER_OCTAVE,
        band_end(4) - band_start(4) == 9,
{
}

/// The number of frames a signal of `sample_count` samples yields at hop
/// `hop_length`: one per hop, plus one; `None` for a zero hop or on overflow.
pub fn frame_count(sample_count: usize, hop_length: usize) -> (frames: Option<usize>)
    ensures
        frames is Some <==> (hop_length > 0 && sample_count / hop_length + 1 <= usize::MAX),
        frames matches Some(n) ==> n == sample_count / hop_length + 1,
{
    if hop_length == 0 {
        return None;
    }
    let whole = sample_count / hop_length;
    whole.checked_add(1)
}

/// Sample `index` of a signal padded with `padding` values `zero` on the
/// left and as many as needed on the right.
pub open spec fn padded_sample<T>(samples: Seq<T>, index: int, padding: int, zero: T) -> T {
    if padding <= index && index - padding < samples.len() {
        samples[index - padding]
    } else {
        zero
    }
}

/// The `width` values a frame starting at padded position `frame_start`
/// reads; `None` when a position overflows a machine word.
pub fn frame_input<T: Copy>(
    samples: &[T],
    frame_start: usize,
    padding: usize,
    width: usize,
    zero: T,
) -> (input: Option<Vec<T>>)
    ensures
        input is Some <==> (width == 0 || frame_start + width - 1 <= usize::MAX),
        input matches Some(v) ==> {
            &&& v@.len() == width
            &&& forall|o: int|
                0 <= o < width ==> #[trigger] v@[o] == padded_sample(
                    samples@,
                    frame_start + o,
                    padding as int,
                    zero,
                )
        },
{
    let mut input: Vec<T> = Vec::new();
    let mut offset: usize = 0;
    while offset < width
        invariant
            offset <= width,
            input@.len() == offset,
            offset > 0 ==> frame_start + offset - 1 <= usize::MAX,
            forall|o: int|
                0 <= o < offset ==> #[trigger] input@[o] == padded_sample(
                    samples@,
                    frame_start + o,
                    padding as int,
                    zero,
                ),
        decreases width - offset,
    {
        let index = match frame_start.checked_add(offset) {
            Some(index) => index,
            None => {
                return None;
            },
        };
        let value = if index >= padding && index - padding < samples.len() {
            samples[index - padding]
        } else {
            zero
        };
        input.push(value);
        offset = offset + 1;
    }
    Some(input)
}

/// What resampling a signal takes.
#[derive(Clone, Copy, Debug, PartialEq, Eq, Structural)]
pub enum ResampleStep {
    /// The rates agree: the signal is its own resampling.
    Copy,
    /// The rates differ: the signal must be converted.
    Convert,
}

/// Checks a resampling request for `sample_count` samples from `input_rate`
/// to `output_rate`: the signal must not be empty and both rates must be
/// positive; equal rates need only a copy.
pub fn plan_resample(sample_count: usize, input_rate: u32, output_rate: u32) -> (step: Result<
    ResampleStep,
    String,
>)
    ensures
        sample_count == 0 ==> (step matches Err(m) && m@ == "input is empty"@),
        sample_count > 0 && (input_rate == 0 || output_rate == 0) ==> (step matches Err(m) && m@
            == "sample rates must be positive"@),
        sample_count > 0 && input_rate > 0 && output_rate > 0 ==> step == (if input_rate
            == output_rate {
            Ok::<ResampleStep, String>(ResampleStep::Copy)
        } else {
            Ok::<ResampleStep, String>(ResampleStep::Convert)
        }),
{
    if sample_count == 0 {
        return Err(String::from_str("input is empty"));
    }
    if input_rate == 0 || output_rate == 0 {
        return Err(String::from_str("sample rates must be positive"));
    }
    if input_rate == output_rate {
        Ok(ResampleStep::Copy)
    } else {
        Ok(ResampleStep::Convert)
    }
}

/// A filter basis can be applied at hop `hop_length`: its real and imaginary
/// parts have one shape, with one column per bin of a real FFT of
/// `fft_size` (`fft_size / 2 + 1`), and the hop is positive.
pub fn basis_agrees(
    real_shape: (usize, usize),
    imaginary_shape: (usize, usize),
    fft_size: usize,
    hop_length: usize,
) -> (agrees: bool)
    ensures
        agrees == (real_shape == imaginary_shape && real_shape.1 == fft_size / 2 + 1 && hop_length
            > 0),
{
    real_shape.0 == imaginary_shape.0 && real_shape.1 == imaginary_shape.1 && real_shape.1
        == fft_size / 2 + 1 && hop_length != 0
}

/// `p` is a power of two.
pub open spec fn is_power_of_two(p: nat) -> bool
    decreases p,
{
    if p <= 1 {
        p == 1
    } else {
        p % 2 == 0 && is_power_of_two(p / 2)
    }
}

/// The FFT size for a filter bank whose longest filter has `longest` taps:
/// the smallest power of two that holds it (as `checked_next_power_of_two`
/// computes it), `None` when that power overflows a machine word.
pub fn fft_size_for(longest: usize) -> (size: Option<usize>)
    ensures
        longest <= usize::MAX / 2 + 1 ==> size is Some,
        size is None ==> longest > usize::MAX / 2 + 1,
        size matches Some(p) ==> {
            &&& is_power_of_two(p as nat)
            &&& p >= longest
            &&& (p == 1 || p / 2 < longest)
        },
{
    let mut p: usize = 1;
    while p < longest
        invariant
            p >= 1,
            is_power_of_two(p as nat),
            p == 1 || p / 2 < longest,
        decreases usize::MAX - p,
    {
        if p > usize::MAX / 2 {
            return None;
        }
        proof {
            assert((2 * p) as nat / 2 == p as nat);
        }
        p = 2 * p;
    }
    Some(p)
}

/// Where a filter of `filter_length` taps sits, centred, in an FFT input of
/// `fft_size`: from `(fft_size - filter_length) / 2` (0 when the filter is
/// longer) for `filter_length` values; `None` when the end overflows.
pub fn filter_placement(fft_size: usize, filter_length: usize) -> (placement: Option<(usize, usize)>)
    ensures
        placement matches Some((start, end)) ==> {
            &&& start == (if fft_size >= filter_length {
                (fft_size - filter_length) / 2
            } else {
                0
            })
            &&& end == start + filter_length
        },
        placement is None ==> (if fft_size >= filter_length {
            (fft_size - filter_length) / 2
        } else {
            0
        }) + filter_length > usize::MAX,
{
    let start = fft_size.saturating_sub(filter_length) / 2;
    match start.checked_add(filter_length) {
        Some(end) => Some((start, end)),
        None => None,
    }
}

/// Whether the transform halves the signal's rate after octave `octave` of
/// `octave_count`: after every octave but the last, while the hop is even.
pub fn halves_after_octave(octave: usize, octave_count: usize, hop_length: usize) -> (halves: bool)
    ensures
        halves == (octave + 1 < octave_count && hop_length % 2 == 0),
{
    octave < octave_count.saturating_sub(1) && hop_length % 2 == 0
}

/// Pads a signal shorter than one hop with `zero` values up to one hop; a
/// longer signal stays as it is.
pub fn pad_to_hop<T: Copy>(samples: &mut Vec<T>, zero: T)
    ensures
        old(samples)@.len() < HOP_LENGTH ==> final(samples)@ == old(samples)@ + Seq::new(
            (HOP_LENGTH - old(samples)@.len()) as nat,
            |i: int| zero,
        ),
        old(samples)@.len() >= HOP_LENGTH ==> final(samples)@ == old(samples)@,
{
    let ghost original = samples@;
    if samples.len() < HOP_LENGTH {
        while samples.len() < HOP_LENGTH
            invariant
                original.len() < HOP_LENGTH,
                original.len() <= samples@.len() <= HOP_LENGTH,
                samples@.subrange(0, original.len() as int) == original,
                forall|i: int| original.len() <= i < samples@.len() ==> #[trigger] samples@[i] == zero,
            decreases HOP_LENGTH - samples@.len(),
        {
            samples.push(zero);
        }
        assert(samples@ =~= original + Seq::new((HOP_LENGTH - original.len()) as nat, |i: int| zero));
    }
}

/// A signal passes the transform's check exactly when it holds a sample and
/// no sample has an all-ones exponent field (no infinity, no NaN).
pub proof fn lemma_samples_accepted_exactly(sample_bits: Seq<u64>)
    ensures
        (sample_bits.len() > 0 && forall|i: int|
            0 <= i < sample_bits.len() ==> is_finite_bits_64(#[trigger] sample_bits[i])) <==> (
        sample_bits.len() >= 1 && forall|i: int|
            0 <= i < sample_bits.len() ==> (#[trigger] sample_bits[i] & 0x7ff0_0000_0000_0000u64)
                != 0x7ff0_0000_0000_0000u64),
{
    assert forall|i: int| 0 <= i < sample_bits.len() implies (is_finite_bits_64(
        #[trigger] sample_bits[i],
    ) <==> (sample_bits[i] & 0x7ff0_0000_0000_0000u64) != 0x7ff0_0000_0000_0000u64) by {
        lemma_finite_exactly_below_full_exponent_64(sample_bits[i]);
    }
}

/// Checks a signal, given by the bit patterns of its `f64` samples, before
/// the transform: it must not be empty and must hold finite samples only.
pub fn validate_samples(sample_bits: &[u64]) -> (result: Result<(), CqtError>)
    ensures
        result is Ok <==> (sample_bits@.len() > 0 && forall|i: int|
            0 <= i < sample_bits@.len() ==> is_finite_bits_64(#[trigger] sample_bits@[i])),
        result matches Err(e) ==> e is InvalidParameters,
        sample_bits@.len() == 0 ==> (result matches Err(CqtError::InvalidParameters(m)) && m@
            == "input is empty"@),
        sample_bits@.len() > 0 && result is Err ==> (result matches Err(
            CqtError::InvalidParameters(m),
        ) && m@ == "input contains non-finite samples"@),
{
    if sample_bits.len() == 0 {
        return Err(CqtError::InvalidParameters(String::from_str("input is empty")));
    }
    let mut i: usize = 0;
    while i < sample_bits.len()
        invariant
            i <= sample_bits@.len(),
            forall|j: int| 0 <= j < i ==> is_finite_bits_64(#[trigger] sample_bits@[j]),
        decreases sample_bits@.len() - i,
    {
        if !is_finite_64(sample_bits[i]) {
            return Err(
                CqtError::InvalidParameters(String::from_str("input contains non-finite samples")),
            );
        }
        i = i + 1;
    }
    Ok(())
}

} // verus!
