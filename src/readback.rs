//! Decisions of the host while it waits for a GPU readback, and the pick
//! request's progress through its stages.
use vstd::prelude::*;

verus! {

/// The wait for a mapped buffer gives up after this many milliseconds.
pub const READBACK_TIMEOUT_MS: u64 = 5000;

/// The wait gives up after this many polls.
pub const MAX_POLLS: u32 = 10000;

/// The waiting thread sleeps a millisecond after every this many polls.
pub const POLLS_PER_SLEEP: u32 = 100;

/// Why a readback was abandoned.
#[derive(Clone, Copy, Debug, PartialEq, Eq, Structural)]
pub enum ReadbackFailure {
    Timeout,
    TooManyPolls,
}

/// What to do after a poll of the device.
#[derive(Clone, Copy, Debug, PartialEq, Eq, Structural)]
pub enum PollAction {
    /// The buffer is mapped: read it.
    Read,
    /// Stop waiting; the request is dropped and the selection stays as it is.
    GiveUp(ReadbackFailure),
    /// Sleep a millisecond, then poll again.
    SleepThenPoll,
    /// Poll again.
    Poll,
}

/// The next step after `poll_count` polls, `elapsed_ms` milliseconds into the wait.
pub fn next_poll_action(poll_count: u32, mapped: bool, elapsed_ms: u64) -> (r: PollAction)
    ensures
        r == if mapped {
            PollAction::Read
        } else if elapsed_ms > READBACK_TIMEOUT_MS {
            PollAction::GiveUp(ReadbackFailure::Timeout)
        } else if poll_count > MAX_POLLS {
            PollAction::GiveUp(ReadbackFailure::TooManyPolls)
        } else if poll_count % POLLS_PER_SLEEP == 0 {
            PollAction::SleepThenPoll
        } else {
            PollAction::Poll
        },
{
    if mapped {
        PollAction::Read
    } else if elapsed_ms > READBACK_TIMEOUT_MS {
        PollAction::GiveUp(ReadbackFailure::Timeout)
    } else if poll_count > MAX_POLLS {
        PollAction::GiveUp(ReadbackFailure::TooManyPolls)
    } else if poll_count % POLLS_PER_SLEEP == 0 {
        PollAction::SleepThenPoll
    } else {
        PollAction::Poll
    }
}

/// The selection pass writes one word per splat; any non-zero word is a hit.
pub fn hits_from_words(words: &[u32]) -> (r: Vec<u8>)
    ensures
        r@.len() == words@.len(),
        forall|i: int| 0 <= i < words@.len() ==> #[trigger] r@[i] == if words@[i] != 0 { 1u8 } else { 0u8 },
{
    let mut r: Vec<u8> = Vec::new();
    let mut i: usize = 0;
    while i < words.len()
        invariant
            i <= words@.len(),
            r@.len() == i,
            forall|j: int| 0 <= j < i ==> #[trigger] r@[j] == if words@[j] != 0 { 1u8 } else { 0u8 },
        decreases words@.len() - i,
    {
        r.push(if words[i] != 0 { 1 } else { 0 });
        i = i + 1;
    }
    r
}

/// Where a pick request stands.
#[derive(Clone, Copy, Debug, PartialEq, Eq, Structural)]
pub enum PickStage {
    Idle,
    Requested,
    ExtractedToRender,
    RenderedToPickTex,
    CopiedToStaging,
    Mapped,
    Applied,
}

/// What happened to a pick request.
#[derive(Clone, Copy, Debug, PartialEq, Eq, Structural)]
pub enum PickEvent {
    /// A pick was asked for.
    Request,
    /// The request was cleared before it was extracted.
    Cancel,
    /// The request reached the render world.
    Extract,
    /// The pick pass rendered.
    Render,
    /// The pick texture was copied to the staging buffer.
    Copy,
    /// The staging buffer was mapped.
    MapSucceeded,
    /// Mapping failed or timed out.
    MapFailed,
    /// The result was applied to the selection.
    Apply,
    /// The applied request was cleared.
    Finish,
}

/// The stage after `event`; an event that does not fit the stage changes nothing.
pub open spec fn pick_step(stage: PickStage, event: PickEvent) -> PickStage {
    match (stage, event) {
        (PickStage::Idle, PickEvent::Request) => PickStage::Requested,
        (PickStage::Requested, PickEvent::Cancel) => PickStage::Idle,
        (PickStage::Requested, PickEvent::Extract) => PickStage::ExtractedToRender,
        (PickStage::ExtractedToRender, PickEvent::Render) => PickStage::RenderedToPickTex,
        (PickStage::RenderedToPickTex, PickEvent::Copy) => PickStage::CopiedToStaging,
        (PickStage::CopiedToStaging, PickEvent::MapSucceeded) => PickStage::Mapped,
        (PickStage::CopiedToStaging, PickEvent::MapFailed) => PickStage::Idle,
        (PickStage::Mapped, PickEvent::Apply) => PickStage::Applied,
        (PickStage::Applied, PickEvent::Finish) => PickStage::Idle,
        _ => stage,
    }
}

pub fn pick_transition(stage: PickStage, event: PickEvent) -> (r: PickStage)
    ensures
        r == pick_step(stage, event),
{
    match (stage, event) {
        (PickStage::Idle, PickEvent::Request) => PickStage::Requested,
        (PickStage::Requested, PickEvent::Cancel) => PickStage::Idle,
        (PickStage::Requested, PickEvent::Extract) => PickStage::ExtractedToRender,
        (PickStage::ExtractedToRender, PickEvent::Render) => PickStage::RenderedToPickTex,
        (PickStage::RenderedToPickTex, PickEvent::Copy) => PickStage::CopiedToStaging,
        (PickStage::CopiedToStaging, PickEvent::MapSucceeded) => PickStage::Mapped,
        (PickStage::CopiedToStaging, PickEvent::MapFailed) => PickStage::Idle,
        (PickStage::Mapped, PickEvent::Apply) => PickStage::Applied,
        (PickStage::Applied, PickEvent::Finish) => PickStage::Idle,
        _ => stage,
    }
}

} // verus!
