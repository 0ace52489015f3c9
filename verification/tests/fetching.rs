use blobfs::fetch::{FetchAction, FetchPoll};

#[test]
fn completed_transfer_is_served_at_once() {
    let mut p = FetchPoll::new(5);
    assert_eq!(p.next(true), FetchAction::Ready);
    assert_eq!(p.attempts, 0);
}

#[test]
fn waits_back_off_then_give_up() {
    let mut p = FetchPoll::new(3);
    assert_eq!(p.next(false), FetchAction::Wait(10));
    assert_eq!(p.next(false), FetchAction::Wait(20));
    assert_eq!(p.next(false), FetchAction::Wait(40));
    // The budget is spent: no unbounded spin, the fetch is abandoned.
    assert_eq!(p.next(false), FetchAction::GiveUp);
    assert_eq!(p.next(false), FetchAction::GiveUp);
}

#[test]
fn delay_is_capped() {
    let mut p = FetchPoll::new(20);
    let mut last = 0u64;
    for _ in 0..20 {
        match p.next(false) {
            FetchAction::Wait(d) => last = d,
            _ => panic!("budget should not be spent yet"),
        }
    }
    assert_eq!(last, 1280);
}

#[test]
fn completion_mid_wait_is_served() {
    let mut p = FetchPoll::new(4);
    assert_eq!(p.next(false), FetchAction::Wait(10));
    assert_eq!(p.next(true), FetchAction::Ready);
}
