//! The error taxonomy. Every fallible boundary returns a typed error; cache
//! failures never surface at all (a bad cache reads as absent).

use vstd::prelude::*;

verus! {

/// Audio-side failures: a file that would not open or decode, or a seek the
/// stream refused. Both are recoverable; the engine stays usable.
#[derive(Clone, Debug)]
pub enum AudioError {
    /// The path that could not be opened or decoded.
    LoadFile(String),
    /// The position (in seconds) a seek was refused at.
    Seek(u64),
}

/// Scanner-side failures.
#[derive(Clone, Debug)]
pub enum ScannerError {
    /// The folder that could not be walked.
    LoadFolder(String),
    /// An I/O failure, as reported by the host.
    IoError(String),
    /// A tag probe that failed on the named file.
    TagProbe(String),
    /// A modification time the platform clock could not express.
    SystemTimeError(String),
}

/// What the controller reports outwards when a component fails.
#[derive(Clone, Debug)]
pub enum ControllerError {
    ScannerError(ScannerError),
    AudioError(AudioError),
}

impl ControllerError {
    /// Wrap a scanner failure for cross-component propagation.
    pub fn from_scanner(e: ScannerError) -> (r: ControllerError)
        ensures
            r matches ControllerError::ScannerError(inner) && inner == e,
    {
        ControllerError::ScannerError(e)
    }

    /// Wrap an audio failure for cross-component propagation.
    pub fn from_audio(e: AudioError) -> (r: ControllerError)
        ensures
            r matches ControllerError::AudioError(inner) && inner == e,
    {
        ControllerError::AudioError(e)
    }
}

} // verus!
