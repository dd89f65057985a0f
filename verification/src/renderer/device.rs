//! Which physical device the renderer picks.

use vstd::prelude::*;

verus! {

/// The kinds of physical device that are told apart when scoring.
#[derive(Copy, Clone, Debug, PartialEq, Eq, Structural)]
pub enum DeviceKind {
    DiscreteGpu,
    IntegratedGpu,
    Other,
}

/// The score of a device: ten thousand for a discrete GPU, five thousand for
/// an integrated one, and on top a thousand for each major, a hundred for each
/// minor and two for each patch number of the API version it implements.
pub open spec fn score_of(kind: DeviceKind, major: u16, minor: u16, patch: u16) -> int {
    (match kind {
        DeviceKind::DiscreteGpu => 10_000int,
        DeviceKind::IntegratedGpu => 5_000int,
        DeviceKind::Other => 0int,
    }) + major * 1_000 + minor * 100 + patch * 2
}

/// Scores a device by its kind and API version.
pub fn device_score(kind: DeviceKind, major: u16, minor: u16, patch: u16) -> (score: u32)
    ensures
        score == score_of(kind, major, minor, patch),
{
    let mut score: u32 = 0;

    // Score for device type
    match kind {
        DeviceKind::DiscreteGpu => {
            score += 10_000;
        },
        DeviceKind::IntegratedGpu => {
            score += 5_000;
        },
        DeviceKind::Other => {},
    }

    // Score for device api version
    // The points given by this should not impact the score much as most
    // implementations are kept up to date
    score += major as u32 * 1_000;
    score += minor as u32 * 100;
    score += patch as u32 * 2;
    score
}

/// `chosen` is the position of a device that no other outscores, and the last
/// such position.
pub open spec fn is_best(scores: Seq<u32>, chosen: int) -> bool {
    &&& 0 <= chosen < scores.len()
    &&& forall|i: int| 0 <= i < scores.len() ==> scores[i] <= scores[chosen]
    &&& forall|i: int| chosen < i < scores.len() ==> scores[i] < scores[chosen]
}

/// Picks the device with the highest score, the last of them where several
/// share it. No device is picked where there is none, or where the best score
/// is zero: no suitable device was found then.
pub fn best_device(scores: &Vec<u32>) -> (chosen: Option<usize>)
    ensures
        match chosen {
            Some(position) => is_best(scores@, position as int) && scores@[position as int] != 0,
            None => forall|i: int| 0 <= i < scores@.len() ==> scores@[i] == 0,
        },
{
    if scores.len() == 0 {
        return None;
    }
    let mut best: usize = 0;
    let mut at: usize = 1;
    while at < scores.len()
        invariant
            1 <= at <= scores.len(),
            best < at,
            forall|i: int| 0 <= i < at ==> scores@[i] <= scores@[best as int],
            forall|i: int| best < i < at ==> scores@[i] < scores@[best as int],
        decreases scores.len() - at,
    {
        if scores[at] >= scores[best] {
            best = at;
        }
        at += 1;
    }
    if scores[best] == 0 {
        None
    } else {
        Some(best)
    }
}

} // verus!
