//! The per-notification outcome reported to the metrics sink.

use vstd::prelude::*;

verus! {

/// What happened to one notification: it was skipped (no `url`, so it is a
/// reshare), it resolved to no inbox at all, or it was relayed to at least
/// one inbox.
#[derive(Clone, Copy, PartialEq, Eq, Structural, Debug)]
pub enum Outcome {
    Skip,
    NoRelay,
    Relay,
}

/// Classify one processed notification.  `has_url` says whether the
/// notification carried a `url`; `n_jobs` is the number of delivery jobs
/// that were produced for it.
pub fn classify(has_url: bool, n_jobs: usize) -> (r: Outcome)
    ensures
        !has_url ==> r == Outcome::Skip,
        has_url && n_jobs == 0 ==> r == Outcome::NoRelay,
        has_url && n_jobs > 0 ==> r == Outcome::Relay,
{
    if !has_url {
        Outcome::Skip
    } else if n_jobs == 0 {
        Outcome::NoRelay
    } else {
        Outcome::Relay
    }
}

} // verus!
