//! The choice of inference backend: which models to load for a runtime
//! choice, and which loaded model runs a prepared track.
use vstd::prelude::*;

use crate::MAX_COREML_FRAMES;

verus! {

/// The runtime a user asks for.
#[derive(Clone, Copy, Debug, PartialEq, Eq, Structural)]
pub enum RuntimeChoice {
    /// Core ML when its model is present and the track fits its time bound,
    /// RTen otherwise.
    Auto,
    /// Core ML only.
    Coreml,
    /// RTen only.
    Rten,
}

/// Which models to load before inference.
#[derive(Clone, Copy, Debug, PartialEq, Eq, Structural)]
pub struct LoadPlan {
    /// Try to load the Core ML model.
    pub load_coreml: bool,
    /// A Core ML model that fails to load is skipped rather than fatal.
    pub coreml_optional: bool,
    /// Load the RTen model (a failure is fatal).
    pub load_rten: bool,
}

/// The model that runs a track.
#[derive(Clone, Copy, Debug, PartialEq, Eq, Structural)]
pub enum Backend {
    /// The Core ML model.
    Coreml,
    /// The RTen model.
    Rten,
    /// The RTen model, because the track exceeds the Core ML time bound
    /// (the caller warns about it, then needs the RTen model loaded).
    RtenBeyondCoremlBound,
}

/// Why no loaded model can run a track.
#[derive(Clone, Copy, Debug, PartialEq, Eq, Structural)]
pub enum BackendError {
    /// Core ML was required but the track has more than 4,096 frames.
    TooManyFramesForCoreml,
    /// Core ML was required but its model is not loaded.
    CoremlUnavailable,
    /// RTen is needed but its model is not loaded.
    RtenUnavailable,
}

/// The models to load for `choice`: Core ML unless RTen was asked for
/// (optional under `Auto`), RTen unless Core ML was asked for.
pub open spec fn load_plan_spec(choice: RuntimeChoice) -> LoadPlan {
    LoadPlan {
        load_coreml: choice != RuntimeChoice::Rten,
        coreml_optional: choice == RuntimeChoice::Auto,
        load_rten: choice != RuntimeChoice::Coreml,
    }
}

/// The backend for a track of `frames` frames under `choice`, given which
/// models are loaded.
pub open spec fn select_backend_spec(
    choice: RuntimeChoice,
    frames: usize,
    coreml_loaded: bool,
    rten_loaded: bool,
) -> Result<Backend, BackendError> {
    match choice {
        RuntimeChoice::Coreml => if frames > MAX_COREML_FRAMES {
            Err(BackendError::TooManyFramesForCoreml)
        } else if coreml_loaded {
            Ok(Backend::Coreml)
        } else {
            Err(BackendError::CoremlUnavailable)
        },
        RuntimeChoice::Auto => if frames <= MAX_COREML_FRAMES && coreml_loaded {
            Ok(Backend::Coreml)
        } else if frames > MAX_COREML_FRAMES {
            Ok(Backend::RtenBeyondCoremlBound)
        } else if !rten_loaded {
            Err(BackendError::RtenUnavailable)
        } else {
            Ok(Backend::Rten)
        },
        RuntimeChoice::Rten => if rten_loaded {
            Ok(Backend::Rten)
        } else {
            Err(BackendError::RtenUnavailable)
        },
    }
}

/// The models to load for `choice`.
pub fn plan_loading(choice: RuntimeChoice) -> (plan: LoadPlan)
    ensures
        plan == load_plan_spec(choice),
{
    LoadPlan {
        load_coreml: !matches!(choice, RuntimeChoice::Rten),
        coreml_optional: matches!(choice, RuntimeChoice::Auto),
        load_rten: !matches!(choice, RuntimeChoice::Coreml),
    }
}

/// Chooses the model that runs a prepared track of `frames` frames:
/// Core ML, when asked for, needs its model and at most 4,096 frames; `Auto`
/// takes Core ML when it is loaded and the track fits, and RTen otherwise,
/// naming the time bound when the track exceeds it; RTen, when chosen for a
/// track within the bound, must be loaded.
pub fn select_backend(
    choice: RuntimeChoice,
    frames: usize,
    coreml_loaded: bool,
    rten_loaded: bool,
) -> (backend: Result<Backend, BackendError>)
    ensures
        backend == select_backend_spec(choice, frames, coreml_loaded, rten_loaded),
{
    match choice {
        RuntimeChoice::Coreml => {
            if frames > MAX_COREML_FRAMES {
                Err(BackendError::TooManyFramesForCoreml)
            } else if coreml_loaded {
                Ok(Backend::Coreml)
            } else {
                Err(BackendError::CoremlUnavailable)
            }
        },
        RuntimeChoice::Auto => {
            if frames <= MAX_COREML_FRAMES && coreml_loaded {
                Ok(Backend::Coreml)
            } else if frames > MAX_COREML_FRAMES {
                Ok(Backend::RtenBeyondCoremlBound)
            } else if !rten_loaded {
                Err(BackendError::RtenUnavailable)
            } else {
                Ok(Backend::Rten)
            }
        },
        RuntimeChoice::Rten => {
            if rten_loaded {
                Ok(Backend::Rten)
            } else {
                Err(BackendError::RtenUnavailable)
            }
        },
    }
}

/// Core ML never runs a track beyond its time bound, whatever the choice.
pub proof fn lemma_coreml_within_bound(
    choice: RuntimeChoice,
    frames: usize,
    coreml_loaded: bool,
    rten_loaded: bool,
)
    ensures
        select_backend_spec(choice, frames, coreml_loaded, rten_loaded) == Ok::<
            Backend,
            BackendError,
        >(Backend::Coreml) ==> frames <= MAX_COREML_FRAMES && coreml_loaded,
{
}

/// Under `Auto`, with the models loaded as planned (RTen always is), every
/// track is analysed: by Core ML exactly when its model loaded and the track
/// fits the time bound, by RTen otherwise.
pub proof fn lemma_auto_always_has_backend(frames: usize, coreml_loaded: bool)
    ensures
        load_plan_spec(RuntimeChoice::Auto).load_rten,
        load_plan_spec(RuntimeChoice::Auto).coreml_optional,
        select_backend_spec(RuntimeChoice::Auto, frames, coreml_loaded, true) is Ok,
        (select_backend_spec(RuntimeChoice::Auto, frames, coreml_loaded, true) == Ok::<
            Backend,
            BackendError,
        >(Backend::Coreml)) <==> (coreml_loaded && frames <= MAX_COREML_FRAMES),
{
}

/// A single-runtime choice loads only its own model, and, with that model
/// loaded, runs on it or (Core ML beyond its bound) refuses the track.
pub proof fn lemma_explicit_choice_uses_its_runtime(frames: usize)
    ensures
        !load_plan_spec(RuntimeChoice::Rten).load_coreml,
        load_plan_spec(RuntimeChoice::Rten).load_rten,
        load_plan_spec(RuntimeChoice::Coreml).load_coreml,
        !load_plan_spec(RuntimeChoice::Coreml).coreml_optional,
        !load_plan_spec(RuntimeChoice::Coreml).load_rten,
        select_backend_spec(RuntimeChoice::Rten, frames, false, true) == Ok::<
            Backend,
            BackendError,
        >(Backend::Rten),
        select_backend_spec(RuntimeChoice::Coreml, frames, true, false) == (if frames
            <= MAX_COREML_FRAMES {
            Ok::<Backend, BackendError>(Backend::Coreml)
        } else {
            Err(BackendError::TooManyFramesForCoreml)
        }),
{
}

} // verus!
