use rfs_gsplat_render::readback::{hits_from_words, next_poll_action, pick_transition, PickEvent, PickStage, PollAction, ReadbackFailure};
use rfs_gsplat_render::splats::{render_transition, EntityRenderEvent, EntityRenderState};

#[test]
fn poll_actions() {
    assert_eq!(next_poll_action(3, true, 9000), PollAction::Read);
    assert_eq!(next_poll_action(3, false, 5001), PollAction::GiveUp(ReadbackFailure::Timeout));
    assert_eq!(next_poll_action(10001, false, 10), PollAction::GiveUp(ReadbackFailure::TooManyPolls));
    assert_eq!(next_poll_action(200, false, 10), PollAction::SleepThenPoll);
    assert_eq!(next_poll_action(201, false, 5000), PollAction::Poll);
}

#[test]
fn hit_words_become_bytes() {
    assert_eq!(hits_from_words(&[0, 1, 7, 0, u32::MAX]), vec![0, 1, 1, 0, 1]);
}

#[test]
fn pick_request_stages() {
    let mut s = PickStage::Idle;
    for e in [PickEvent::Request, PickEvent::Extract, PickEvent::Render, PickEvent::Copy, PickEvent::MapSucceeded, PickEvent::Apply] {
        s = pick_transition(s, e);
    }
    assert_eq!(s, PickStage::Applied);
    assert_eq!(pick_transition(s, PickEvent::Finish), PickStage::Idle);
    assert_eq!(pick_transition(PickStage::CopiedToStaging, PickEvent::MapFailed), PickStage::Idle);
    assert_eq!(pick_transition(PickStage::Requested, PickEvent::Cancel), PickStage::Idle);
    assert_eq!(pick_transition(PickStage::Idle, PickEvent::Render), PickStage::Idle);
}

#[test]
fn entity_render_states() {
    let mut s = EntityRenderState::Uninitialised;
    s = render_transition(s, EntityRenderEvent::BindGroupsCreated);
    assert_eq!(s, EntityRenderState::Uninitialised);
    for e in [EntityRenderEvent::BuffersCreated, EntityRenderEvent::BindGroupsCreated, EntityRenderEvent::PipelineReady] {
        s = render_transition(s, e);
    }
    assert_eq!(s, EntityRenderState::Drawable);
    assert_eq!(render_transition(s, EntityRenderEvent::Invalidated), EntityRenderState::Uninitialised);
}
