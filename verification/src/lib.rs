//! Verified core of a guitar tuner: note names and labels, tuning presets,
//! framing of audio sample streams, and the registry of pitch detectors that a
//! host drives by id.

use vstd::prelude::*;

pub mod audio;
pub mod bridge;
pub mod note;
pub mod smoothing;
pub mod text;
pub mod tuning;

pub use audio::{extract_sliding_frames, AudioInputKind, CaptureConfig};
pub use bridge::{is_valid_config, BridgeConfig, DetectorHandle, DetectorRegistry};
pub use note::{Note, NoteName};
pub use tuning::{
    all_presets, dadgad, default_preset, drop_c, drop_d, e_standard, preset_by_id,
    standard_tuning, PresetId, TargetString, TuningPreset,
};

verus! {

/// What the tuner compares a measured pitch with.
#[derive(Debug, Clone, Copy, PartialEq, Eq, Structural)]
pub enum TunerMode {
    /// The nearest note of the chromatic scale.
    Chromatic,
    /// The nearest string of a preset.
    Preset(PresetId),
}

/// What the tuner's display shows.
#[derive(Debug, Clone, Copy, PartialEq, Eq, Structural)]
pub enum UiState {
    NoSignal,
    Searching,
    Unstable,
    TooLow,
    InTune,
    TooHigh,
}

} // verus!
