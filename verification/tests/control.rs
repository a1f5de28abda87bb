use nn_rust::control::{Action, Event, Phase, Signal, Worker};
use nn_rust::error::Error;
use nn_rust::session::{elapsed_millis, Remote};

fn running(limit: u64) -> Worker {
    let mut w = Worker::new(limit);
    assert_eq!(w.advance(Event::Begin), Action::Check);
    w
}

#[test]
fn a_new_worker_is_idle() {
    let w = Worker::new(100_000);
    assert_eq!(w.phase, Phase::Idle);
    assert_eq!(w.epoch, 0);
    assert_eq!(w.limit, 100_000);
    assert_eq!(w.action(), Action::Prepare);
    assert!(!w.paused());
    assert_eq!(w.outcome(), Ok(()));
}

#[test]
fn an_idle_worker_waits_for_the_start() {
    let mut w = Worker::new(5);
    assert_eq!(w.advance(Event::Trained), Action::Prepare);
    assert_eq!(w.advance(Event::Received(Signal::Stop)), Action::Prepare);
    assert_eq!(w.advance(Event::Quiet), Action::Prepare);
    assert_eq!(w.advance(Event::Closed), Action::Prepare);
    assert_eq!(w, Worker::new(5));
    assert_eq!(w.advance(Event::Begin), Action::Check);
    assert_eq!(w.phase, Phase::Running);
}

#[test]
fn epochs_follow_checks() {
    let mut w = running(3);
    for epoch in 0..3u64 {
        assert_eq!(w.epoch, epoch);
        assert_eq!(w.advance(Event::Quiet), Action::Train);
        assert_eq!(w.epoch, epoch);
        assert_eq!(w.advance(Event::Trained), Action::Check);
        assert_eq!(w.epoch, epoch + 1);
    }
    assert_eq!(w.advance(Event::Quiet), Action::Train);
    assert_eq!(w.advance(Event::Trained), Action::Finish);
    assert_eq!(w.phase, Phase::Stopped);
    assert_eq!(w.epoch, 3);
    assert_eq!(w.outcome(), Ok(()));
}

#[test]
fn a_limit_of_zero_trains_one_epoch() {
    let mut w = running(0);
    assert_eq!(w.advance(Event::Quiet), Action::Train);
    assert_eq!(w.advance(Event::Trained), Action::Finish);
    assert_eq!(w.epoch, 0);
}

#[test]
fn the_largest_limit_does_not_overflow() {
    let mut w = Worker {
        phase: Phase::Running,
        ready: true,
        epoch: u64::MAX,
        limit: u64::MAX,
        failed: false,
    };
    assert_eq!(w.advance(Event::Trained), Action::Finish);
    assert_eq!(w.epoch, u64::MAX);
}

#[test]
fn pause_holds_the_epoch_counter() {
    let mut w = running(10);
    w.advance(Event::Quiet);
    w.advance(Event::Trained);
    assert_eq!(w.epoch, 1);
    assert_eq!(w.advance(Event::Received(Signal::Pause)), Action::Wait);
    assert_eq!(w.phase, Phase::Paused);
    assert!(w.paused());
    for event in [
        Event::Trained,
        Event::Quiet,
        Event::Received(Signal::Pause),
        Event::Begin,
        Event::Trained,
    ] {
        assert_eq!(w.advance(event), Action::Wait);
        assert_eq!(w.epoch, 1);
        assert_eq!(w.phase, Phase::Paused);
    }
    assert_eq!(w.advance(Event::Received(Signal::Resume)), Action::Train);
    assert_eq!(w.phase, Phase::Running);
    assert!(!w.paused());
    assert_eq!(w.epoch, 1);
    assert_eq!(w.advance(Event::Trained), Action::Check);
    assert_eq!(w.epoch, 2);
}

#[test]
fn pause_comes_before_the_next_epoch() {
    let mut w = running(10);
    assert_eq!(w.advance(Event::Quiet), Action::Train);
    // a signal that is taken from the channel counts at once
    assert_eq!(w.advance(Event::Received(Signal::Pause)), Action::Wait);
    assert_eq!(w.advance(Event::Trained), Action::Wait);
    assert_eq!(w.epoch, 0);
    assert_eq!(w.advance(Event::Received(Signal::Resume)), Action::Train);
    assert_eq!(w.advance(Event::Trained), Action::Check);
    assert_eq!(w.epoch, 1);
}

#[test]
fn stop_is_final() {
    let mut w = running(10);
    w.advance(Event::Quiet);
    w.advance(Event::Trained);
    w.advance(Event::Quiet);
    w.advance(Event::Trained);
    assert_eq!(w.advance(Event::Received(Signal::Stop)), Action::Finish);
    assert_eq!(w.phase, Phase::Stopped);
    let stopped = w;
    for event in [
        Event::Begin,
        Event::Trained,
        Event::Quiet,
        Event::Received(Signal::Resume),
        Event::Received(Signal::Pause),
        Event::Closed,
        Event::Poisoned,
        Event::Trained,
    ] {
        assert_eq!(w.advance(event), Action::Finish);
        assert_eq!(w, stopped);
    }
    assert_eq!(w.epoch, 2);
    assert_eq!(w.outcome(), Ok(()));
}

#[test]
fn stop_while_paused() {
    let mut w = running(10);
    w.advance(Event::Received(Signal::Pause));
    assert_eq!(w.advance(Event::Received(Signal::Stop)), Action::Finish);
    assert_eq!(w.phase, Phase::Stopped);
    assert_eq!(w.epoch, 0);
    assert!(!w.paused());
    assert_eq!(w.outcome(), Ok(()));
}

#[test]
fn stop_comes_within_one_epoch() {
    let mut w = running(10);
    w.advance(Event::Quiet);
    let before = w.epoch;
    // the signal is sent while the epoch runs
    assert_eq!(w.advance(Event::Trained), Action::Check);
    assert_eq!(w.advance(Event::Received(Signal::Stop)), Action::Finish);
    assert_eq!(w.epoch, before + 1);
}

#[test]
fn resume_while_running_changes_nothing() {
    let mut w = running(10);
    assert_eq!(w.advance(Event::Received(Signal::Resume)), Action::Train);
    assert_eq!(w.phase, Phase::Running);
    assert_eq!(w.advance(Event::Trained), Action::Check);
    assert_eq!(w.epoch, 1);
}

#[test]
fn a_closed_channel_does_not_stop_a_running_worker() {
    let mut w = running(10);
    assert_eq!(w.advance(Event::Closed), Action::Train);
    assert_eq!(w.advance(Event::Trained), Action::Check);
    assert_eq!(w.phase, Phase::Running);
    assert_eq!(w.outcome(), Ok(()));
}

#[test]
fn a_closed_channel_ends_a_paused_worker() {
    let mut w = running(10);
    w.advance(Event::Received(Signal::Pause));
    assert_eq!(w.advance(Event::Closed), Action::Finish);
    assert_eq!(w.phase, Phase::Stopped);
    assert_eq!(w.outcome(), Err(Error::ConcurrencyFailure));
}

#[test]
fn a_poisoned_lock_ends_the_worker() {
    for prefix in [
        vec![],
        vec![Event::Begin],
        vec![Event::Begin, Event::Quiet],
        vec![Event::Begin, Event::Received(Signal::Pause)],
    ] {
        let mut w = Worker::new(10);
        for event in prefix {
            w.advance(event);
        }
        assert_eq!(w.advance(Event::Poisoned), Action::Finish);
        assert_eq!(w.phase, Phase::Stopped);
        assert_eq!(w.outcome(), Err(Error::ConcurrencyFailure));
    }
}

#[test]
fn a_second_check_is_not_a_second_epoch() {
    let mut w = running(10);
    assert_eq!(w.advance(Event::Quiet), Action::Train);
    assert_eq!(w.advance(Event::Quiet), Action::Train);
    assert_eq!(w.advance(Event::Trained), Action::Check);
    assert_eq!(w.advance(Event::Trained), Action::Check);
    assert_eq!(w.epoch, 1);
}

#[test]
fn stop_counts_whenever_it_is_received() {
    let mut w = running(10);
    assert_eq!(w.advance(Event::Quiet), Action::Train);
    assert_eq!(w.advance(Event::Received(Signal::Stop)), Action::Finish);
    assert_eq!(w.advance(Event::Trained), Action::Finish);
    assert_eq!(w.epoch, 0);
    assert_eq!(w.outcome(), Ok(()));
}

#[test]
fn the_remote_toggles() {
    let mut remote = Remote::new();
    assert!(!remote.paused);
    assert_eq!(remote.toggle(), Signal::Pause);
    assert_eq!(remote.sent(Signal::Pause, true), Ok(()));
    assert!(remote.paused);
    assert_eq!(remote.toggle(), Signal::Resume);
    assert_eq!(remote.sent(Signal::Resume, true), Ok(()));
    assert!(!remote.paused);
    assert_eq!(remote.toggle(), Signal::Pause);
}

#[test]
fn the_remote_reports_a_failed_send() {
    let mut remote = Remote::new();
    assert_eq!(remote.sent(Signal::Pause, false), Err(Error::ConcurrencyFailure));
    assert!(!remote.paused);
    assert_eq!(remote.sent(Signal::Pause, true), Ok(()));
    assert_eq!(remote.sent(Signal::Resume, false), Err(Error::ConcurrencyFailure));
    assert!(remote.paused);
    assert_eq!(remote.sent(Signal::Stop, true), Ok(()));
    assert!(!remote.paused);
}

#[test]
fn elapsed_time_is_a_difference() {
    assert_eq!(elapsed_millis(1_000, 3_500), 2_500);
    assert_eq!(elapsed_millis(3_500, 1_000), -2_500);
    assert_eq!(elapsed_millis(0, 0), 0);
    assert_eq!(elapsed_millis(-5, 5), 10);
}

#[test]
fn elapsed_time_does_not_overflow() {
    assert_eq!(elapsed_millis(i64::MIN, i64::MAX), i64::MAX);
    assert_eq!(elapsed_millis(i64::MAX, i64::MIN), i64::MIN);
    assert_eq!(elapsed_millis(-1, i64::MAX), i64::MAX);
    assert_eq!(elapsed_millis(0, i64::MAX), i64::MAX);
    assert_eq!(elapsed_millis(1, i64::MIN), i64::MIN);
    assert_eq!(elapsed_millis(0, i64::MIN), i64::MIN);
}
