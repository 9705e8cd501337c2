//! The error taxonomy of one run.  Every variant is terminal: the pipeline
//! either produces a fully consistent artifact set plus manifest, or reports
//! one of these and leaves whatever was already written on disk.

use vstd::prelude::*;

verus! {

/// A fatal failure of one pipeline run.
pub enum RunError {
    /// The upstream inventory could not be reached, or answered with a
    /// non-success status.  Carries the requested location.
    Transport(String),
    /// The response body was not valid JSON of the expected shape.  Carries
    /// the decoder's complaint.
    Decode(String),
    /// An artifact file could not be written.  Carries the artifact path.
    ArtifactWrite(String),
    /// The build manifest could not be read or written.  Carries the
    /// manifest path.
    Manifest(String),
}

impl RunError {
    /// The detail the error carries.
    pub open spec fn detail_spec(self) -> Seq<char> {
        match self {
            RunError::Transport(d) => d@,
            RunError::Decode(d) => d@,
            RunError::ArtifactWrite(d) => d@,
            RunError::Manifest(d) => d@,
        }
    }

    /// The fixed diagnostic prefix of the variant.
    pub open spec fn prefix_spec(self) -> Seq<char> {
        match self {
            RunError::Transport(_) => "Failed to fetch data from "@,
            RunError::Decode(_) => "Failed to read json body: "@,
            RunError::ArtifactWrite(_) => "Failed to write artifact "@,
            RunError::Manifest(_) => "Failed to update build manifest "@,
        }
    }

    /// The diagnostic line for the error: its prefix, then its detail.
    pub fn message(&self) -> (r: String)
        ensures
            r@ == self.prefix_spec() + self.detail_spec(),
    {
        let mut s = String::new();
        match self {
            RunError::Transport(d) => {
                s.append("Failed to fetch data from ");
                s.append(d.as_str());
            },
            RunError::Decode(d) => {
                s.append("Failed to read json body: ");
                s.append(d.as_str());
            },
            RunError::ArtifactWrite(d) => {
                s.append("Failed to write artifact ");
                s.append(d.as_str());
            },
            RunError::Manifest(d) => {
                s.append("Failed to update build manifest ");
                s.append(d.as_str());
            },
        }
        s
    }
}

} // verus!
