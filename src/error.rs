//! The failures of a bootstrap step.

use vstd::prelude::*;

verus! {

/// A field that the platform left out of an object it returned.
#[derive(Clone, Copy, Debug, PartialEq, Eq, Structural)]
pub enum MissingField {
    /// `.metadata.name` of a namespace or deployment.
    Name,
    /// `.status` of a pod.
    Status,
    /// `.status.podIP` of a pod, absent or empty.
    PodIp,
    /// The `id` label of a seed pod.
    IdLabel,
}

/// Why a bootstrap step failed.
#[derive(Debug, PartialEq, Eq)]
pub enum BootstrapError {
    /// Talking to the platform failed (network, authentication, rejection).
    Infrastructure(String),
    /// The platform returned an object without a field this step relies on.
    MalformedResponse(MissingField),
    /// The seed pods were not all running within the attempt budget.
    NotReady,
}

} // verus!
