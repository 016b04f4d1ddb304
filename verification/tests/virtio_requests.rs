use kernel_core::block::BlockError;
use kernel_core::virtio::{QueueState, RequestAction, RequestCycle, RequestStage, POLL_LIMIT};

fn queue(last_used: u16) -> QueueState {
    QueueState { queue_size: 8, avail_idx: 1, last_used }
}

#[test]
fn request_completes_when_the_used_count_moves() {
    let (cycle, action) = RequestCycle::start(queue(0));
    assert_eq!(action, RequestAction::ReadUsed);
    let (cycle, action) = cycle.advance(0);
    assert_eq!(action, RequestAction::ReadUsed);
    assert_eq!(cycle.stage, RequestStage::Polling { polls: 1 });
    let (cycle, action) = cycle.advance(1);
    assert_eq!(action, RequestAction::ReadStatus);
    assert_eq!(cycle.queue.last_used, 1);
    let (cycle, action) = cycle.advance(0);
    assert_eq!(action, RequestAction::Succeeded);
    assert_eq!(cycle.stage, RequestStage::Finished);
}

#[test]
fn request_with_a_bad_status_byte_fails() {
    let (cycle, _) = RequestCycle::start(queue(65535));
    let (cycle, action) = cycle.advance(0);
    assert_eq!(action, RequestAction::ReadStatus);
    let (_, action) = cycle.advance(1);
    assert_eq!(action, RequestAction::Failed(BlockError::Io));
}

#[test]
fn request_gives_up_after_the_poll_limit() {
    let cycle = RequestCycle { stage: RequestStage::Polling { polls: POLL_LIMIT - 2 }, queue: queue(3) };
    let (cycle, action) = cycle.advance(3);
    assert_eq!(action, RequestAction::ReadUsed);
    let (cycle, action) = cycle.advance(3);
    assert_eq!(action, RequestAction::Failed(BlockError::Io));
    assert_eq!(cycle.stage, RequestStage::Finished);
}
