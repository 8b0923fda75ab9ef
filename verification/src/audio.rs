//! Errors reported by the audio-playback collaborator. Playback itself is
//! fire-and-forget I/O performed by the binary; the daemon only logs these.

use vstd::prelude::*;

verus! {

/// Why a bell could not be played.
#[derive(Clone, Debug, PartialEq, Eq)]
pub enum AudioError {
    /// The audio output device could not be initialized.
    OutputError(String),
    /// The bell sound could not be decoded.
    DecodeError(String),
    /// Playback failed after the output was set up.
    PlaybackError(String),
}

impl AudioError {
    /// The human-readable text for this error.
    pub fn message(&self) -> (r: String)
        ensures
            r@ == self.message_spec(),
    {
        let mut out: String;
        match self {
            AudioError::OutputError(d) => {
                out = String::from_str("failed to initialize audio output: ");
                out.append(d.as_str());
            },
            AudioError::DecodeError(d) => {
                out = String::from_str("failed to decode audio: ");
                out.append(d.as_str());
            },
            AudioError::PlaybackError(d) => {
                out = String::from_str("playback error: ");
                out.append(d.as_str());
            },
        }
        out
    }

    pub open spec fn message_spec(&self) -> Seq<char> {
        match self {
            AudioError::OutputError(d) => "failed to initialize audio output: "@ + d@,
            AudioError::DecodeError(d) => "failed to decode audio: "@ + d@,
            AudioError::PlaybackError(d) => "playback error: "@ + d@,
        }
    }
}

} // verus!
