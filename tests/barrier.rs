use oe_core::sync::{BarrierStep, MutexCondition};

#[test]
fn two_parties_alternate() {
    let mut b = MutexCondition::new(2);
    for round in 0..5u64 {
        assert_eq!(b.update(), BarrierStep::Wait(round));
        assert!(!b.is_released(round));
        assert_eq!(b.update(), BarrierStep::Release);
        assert!(b.is_released(round));
        assert_eq!(b.generation(), round + 1);
    }
}

#[test]
fn three_parties_release_on_third() {
    let mut b = MutexCondition::new(3);
    assert_eq!(b.update(), BarrierStep::Wait(0));
    assert_eq!(b.update(), BarrierStep::Wait(0));
    assert_eq!(b.update(), BarrierStep::Release);
    assert_eq!(b.update(), BarrierStep::Wait(1));
}

#[test]
fn release_frees_a_waiting_party() {
    let mut b = MutexCondition::new(2);
    assert_eq!(b.update(), BarrierStep::Wait(0));
    b.release();
    assert!(b.is_released(0));
    assert_eq!(b.generation(), 1);
}

#[test]
fn single_party_never_waits() {
    let mut b = MutexCondition::new(1);
    assert_eq!(b.update(), BarrierStep::Release);
    assert_eq!(b.update(), BarrierStep::Release);
}
