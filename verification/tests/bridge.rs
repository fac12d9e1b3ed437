use mdsite::bridge::AdapterState;
use mdsite::bridge::BridgeModel;
use mdsite::bridge::BridgePhase;
use mdsite::bridge::HandleSlot;
use mdsite::bridge::PollStatus;
use mdsite::bridge::ResumeOutcome;
use mdsite::bridge::ScriptFuture;
use mdsite::bridge::adapter_step;
use mdsite::bridge::poll_directly;

#[test]
fn slot_take_and_put_round_trip() {
    let mut slot: HandleSlot<u64> = HandleSlot::filled(7);
    assert!(slot.occupied());
    let h = slot.take();
    assert_eq!(h, 7);
    assert!(!slot.occupied());
    slot.put(9);
    assert!(slot.occupied());
    assert_eq!(slot.take(), 9);
}

#[test]
fn vacant_slot_is_empty() {
    let slot: HandleSlot<u32> = HandleSlot::vacant();
    assert!(!slot.occupied());
}

#[test]
fn adapter_step_yield_becomes_pending() {
    let (state, poll) = adapter_step::<u32>(AdapterState::Fresh, ResumeOutcome::Yielded);
    assert_eq!(state, AdapterState::Suspended);
    assert!(matches!(poll, PollStatus::Pending));
}

#[test]
fn adapter_step_return_becomes_ready() {
    let (state, poll) = adapter_step(AdapterState::Suspended, ResumeOutcome::Returned(41u64));
    assert_eq!(state, AdapterState::Complete);
    assert!(matches!(poll, PollStatus::Ready(41)));
}

#[test]
fn ready_future_resolves_after_one_outer_poll() {
    let mut m = BridgeModel::new(ScriptFuture::new(0, 55));
    let (value, polls) = m.drive();
    assert_eq!(value, 55);
    assert_eq!(polls, 1);
    assert!(matches!(m.phase, BridgePhase::Complete));
}

#[test]
fn pending_once_future_resolves_after_two_outer_polls() {
    let mut m = BridgeModel::new(ScriptFuture::new(1, 77));
    match m.poll() {
        PollStatus::Pending => {}
        PollStatus::Ready(_) => panic!("first poll must be pending"),
    }
    assert!(matches!(m.phase, BridgePhase::InBlockOn));
    assert!(!m.slot.occupied());
    match m.poll() {
        PollStatus::Ready(v) => assert_eq!(v, 77),
        PollStatus::Pending => panic!("second poll must be ready"),
    }
    assert!(matches!(m.phase, BridgePhase::Complete));
}

#[test]
fn bridged_value_matches_direct_polling() {
    for pendings in 0..5u64 {
        let mut bridged = BridgeModel::new(ScriptFuture::new(pendings, 123));
        let (value, polls) = bridged.drive();

        let mut direct = ScriptFuture::new(pendings, 123);
        let direct_value = poll_directly(&mut direct, pendings + 1, 0);

        assert_eq!(Some(value), direct_value);
        assert_eq!(polls, pendings + 1);
    }
}

#[test]
fn each_resume_delivers_a_fresh_distinct_handle() {
    let mut m = BridgeModel::new(ScriptFuture::new(4, 9));
    let (_, polls) = m.drive();
    assert_eq!(polls, 5);
    assert_eq!(m.handle_log, vec![0, 1, 2, 3, 4]);
    for i in 0..m.handle_log.len() {
        for j in 0..i {
            assert_ne!(m.handle_log[i], m.handle_log[j]);
        }
    }
    // the inner future was last driven with the final resume's handle
    assert_eq!(m.inner.last_polled_with, Some(4));
}

#[test]
fn sequential_bridges_never_observe_each_other() {
    let mut first = BridgeModel::new(ScriptFuture::new(2, 10));
    let mut second = BridgeModel::new(ScriptFuture::new(0, 20));

    let (v1, p1) = first.drive();
    // the first bridge is complete with its slot restored before the second runs
    assert!(first.slot.occupied());
    assert!(!second.slot.occupied());
    let (v2, p2) = second.drive();

    assert_eq!((v1, p1), (10, 3));
    assert_eq!((v2, p2), (20, 1));
    assert_eq!(first.handle_log, vec![0, 1, 2]);
    assert_eq!(second.handle_log, vec![0]);
}

#[test]
fn direct_polling_gives_none_when_polls_run_out() {
    let mut f = ScriptFuture::new(3, 1);
    assert_eq!(poll_directly(&mut f, 3, 0), None);
    let mut g = ScriptFuture::new(3, 1);
    assert_eq!(poll_directly(&mut g, 4, 0), Some(1));
}
