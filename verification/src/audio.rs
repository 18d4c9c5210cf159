//! Audio-side types shared with the playback engine: the sample clock that
//! judgement follows, and the engine's and decoder's error kinds.

use vstd::prelude::*;
use std::sync::Arc;
use std::sync::atomic::AtomicU64;

verus! {

#[verifier::external_type_specification]
#[verifier::external_body]
pub struct ExIoError(std::io::Error);

/// Master clock: the number of sample frames the audio device has played.
#[derive(Debug, Clone)]
pub struct AudioClock {
    samples_played: Arc<AtomicU64>,
    sample_rate: u32,
}

impl AudioClock {
    /// The output sample rate in Hz.
    pub closed spec fn rate(&self) -> u32 {
        self.sample_rate
    }

    /// The shared counter the clock reads.
    pub closed spec fn counter(&self) -> Arc<AtomicU64> {
        self.samples_played
    }

    pub fn new(samples_played: Arc<AtomicU64>, sample_rate: u32) -> (c: Self)
        ensures
            c.rate() == sample_rate,
            c.counter() == samples_played,
    {
        AudioClock { samples_played, sample_rate }
    }

    /// Sample frames played since playback started, as last published by the
    /// audio thread (which advances the counter; nothing is known of the
    /// value read).
    pub fn current_samples(&self) -> (r: u64) {
        self.samples_played.load(std::sync::atomic::Ordering::Relaxed)
    }

    /// The output sample rate in Hz.
    pub fn sample_rate(&self) -> (r: u32)
        ensures
            r == self.rate(),
    {
        self.sample_rate
    }
}

/// Errors of the audio output engine.
#[derive(Debug)]
pub enum AudioEngineError {
    NoOutputDevice,
    DefaultStreamConfigError(String),
    BuildStreamError(String),
    PlayStreamError(String),
}

/// Errors of audio sample decoding.
#[derive(Debug)]
pub enum AudioDecodeError {
    IoError(std::io::Error),
    WavDecodeError(String),
    OggDecodeError(String),
    UnsupportedFormat(String),
}

} // verus!
