use mbell::config::Config;
use mbell::daemon::{Clock, Daemon, DaemonState};
use mbell::ipc::{Command, Response};
use mbell::lock::LockEvent;
use mbell::stats::Stats;

fn cfg(interval: u64) -> Config {
    Config { interval, volume: 70, log_level: String::from("info") }
}

fn clock(mono: u64) -> Clock {
    Clock { monotonic_secs: mono, wall_secs: 1_700_000_000, today: 20_000 }
}

fn fresh(interval: u64, now: u64) -> Daemon {
    Daemon::new(cfg(interval), Stats::default(), now)
}

#[test]
fn new_daemon_starts_running() {
    let d = fresh(10, 5);
    assert_eq!(d.state, DaemonState::Running);
    assert_eq!(d.bells_this_session, 0);
    assert_eq!(d.last_bell, 5);
    assert!(!d.was_paused_before_lock);
}

#[test]
fn pause_from_running_pauses() {
    let mut d = fresh(10, 0);
    let r = d.handle_command(Command::Pause, clock(1), None);
    assert_eq!(r, Response::Okay);
    assert_eq!(d.state, DaemonState::Paused);
}

#[test]
fn pause_from_paused_is_error_and_noop() {
    let mut d = fresh(10, 0);
    d.handle_command(Command::Pause, clock(1), None);
    let r = d.handle_command(Command::Pause, clock(2), None);
    assert_eq!(r, Response::Error(String::from("cannot pause: currently paused")));
    assert_eq!(d.state, DaemonState::Paused);
}

#[test]
fn pause_from_locked_is_error_and_noop() {
    let mut d = fresh(10, 0);
    d.handle_lock_event(LockEvent::Locked, 1);
    let r = d.handle_command(Command::Pause, clock(2), None);
    assert_eq!(r, Response::Error(String::from("cannot pause: currently locked")));
    assert_eq!(d.state, DaemonState::Locked);
}

#[test]
fn resume_from_paused_resumes_and_restarts_timer() {
    let mut d = fresh(10, 0);
    d.handle_command(Command::Pause, clock(1), None);
    let r = d.handle_command(Command::Resume, clock(90), None);
    assert_eq!(r, Response::Okay);
    assert_eq!(d.state, DaemonState::Running);
    assert_eq!(d.last_bell, 90);
}

#[test]
fn resume_from_running_is_error_and_noop() {
    let mut d = fresh(10, 0);
    let r = d.handle_command(Command::Resume, clock(1), None);
    assert_eq!(r, Response::Error(String::from("cannot resume: currently running")));
    assert_eq!(d.state, DaemonState::Running);
    assert_eq!(d.last_bell, 0);
}

#[test]
fn resume_from_locked_is_error_and_noop() {
    let mut d = fresh(10, 0);
    d.handle_lock_event(LockEvent::Locked, 1);
    let r = d.handle_command(Command::Resume, clock(2), None);
    assert_eq!(r, Response::Error(String::from("cannot resume: currently locked")));
    assert_eq!(d.state, DaemonState::Locked);
}

#[test]
fn stop_answers_ok_before_the_loop_ends() {
    let mut d = fresh(10, 0);
    let before_state = d.state;
    let before_bells = d.bells_this_session;
    let r = d.handle_command(Command::Stop, clock(1), None);
    assert_eq!(r, Response::Okay);
    assert_eq!(d.state, before_state);
    assert_eq!(d.bells_this_session, before_bells);
}

#[test]
fn status_reflects_the_context() {
    let mut d = fresh(10, 100);
    let r = d.handle_command(Command::Status, clock(160), None);
    match r {
        Response::Status(si) => {
            assert_eq!(si.state, String::from("running"));
            assert_eq!(si.next_bell_secs, Some(600 - 60));
            assert_eq!(si.interval_mins, 10);
            assert_eq!(si.total_bells_session, 0);
        },
        other => panic!("expected a status snapshot, got {:?}", other),
    }
}

#[test]
fn status_next_bell_absent_unless_running() {
    let mut d = fresh(10, 0);
    d.handle_command(Command::Pause, clock(1), None);
    let r = d.handle_command(Command::Status, clock(2), None);
    match r {
        Response::Status(si) => {
            assert_eq!(si.state, String::from("paused"));
            assert_eq!(si.next_bell_secs, None);
        },
        other => panic!("expected a status snapshot, got {:?}", other),
    }
}

#[test]
fn status_next_bell_zero_once_interval_elapsed() {
    let mut d = fresh(1, 0);
    let r = d.handle_command(Command::Status, clock(120), None);
    match r {
        Response::Status(si) => assert_eq!(si.next_bell_secs, Some(0)),
        other => panic!("expected a status snapshot, got {:?}", other),
    }
}

#[test]
fn ring_command_rings_regardless_of_state() {
    let mut d = fresh(10, 0);
    d.handle_command(Command::Pause, clock(1), None);
    let r = d.handle_command(Command::Ring, clock(30), None);
    assert_eq!(r, Response::Okay);
    assert_eq!(d.state, DaemonState::Paused);
    assert_eq!(d.bells_this_session, 1);
    assert_eq!(d.last_bell, 30);
}

#[test]
fn locked_twice_changes_nothing_after_the_first() {
    let mut d = fresh(10, 0);
    d.handle_command(Command::Pause, clock(1), None);
    d.handle_lock_event(LockEvent::Locked, 5);
    assert_eq!(d.state, DaemonState::Locked);
    assert!(d.was_paused_before_lock);
    let latch = d.was_paused_before_lock;
    let last = d.last_bell;
    d.handle_lock_event(LockEvent::Locked, 9);
    assert_eq!(d.state, DaemonState::Locked);
    assert_eq!(d.was_paused_before_lock, latch);
    assert_eq!(d.last_bell, last);
}

#[test]
fn unlock_after_lock_from_running_restores_running_without_a_ring() {
    let mut d = fresh(1, 0);
    d.handle_lock_event(LockEvent::Locked, 10);
    assert_eq!(d.state, DaemonState::Locked);
    assert!(!d.was_paused_before_lock);
    // Far more than the interval passes while locked.
    d.handle_lock_event(LockEvent::Unlocked, 500);
    assert_eq!(d.state, DaemonState::Running);
    assert_eq!(d.last_bell, 500);
    // The very next tick must not ring.
    let fired = d.handle_tick(clock(500));
    assert!(!fired);
    assert_eq!(d.bells_this_session, 0);
}

#[test]
fn unlock_after_lock_from_paused_restores_paused() {
    let mut d = fresh(1, 0);
    d.handle_command(Command::Pause, clock(1), None);
    d.handle_lock_event(LockEvent::Locked, 10);
    d.handle_lock_event(LockEvent::Unlocked, 900);
    assert_eq!(d.state, DaemonState::Paused);
    assert_eq!(d.last_bell, 0);
    let fired = d.handle_tick(clock(2_000));
    assert!(!fired);
}

#[test]
fn unlock_while_not_locked_is_a_noop() {
    let mut d = fresh(10, 7);
    d.handle_lock_event(LockEvent::Unlocked, 50);
    assert_eq!(d.state, DaemonState::Running);
    assert_eq!(d.last_bell, 7);
}

#[test]
fn tick_rings_on_the_first_second_at_or_past_the_interval() {
    let mut d = fresh(1, 1_000);
    for now in 1_001..1_060 {
        assert!(!d.handle_tick(clock(now)), "rang early at {}", now);
    }
    assert!(d.handle_tick(clock(1_060)));
    assert_eq!(d.bells_this_session, 1);
    assert_eq!(d.last_bell, 1_060);
}

#[test]
fn ticks_while_paused_never_ring_and_resume_owes_nothing() {
    let mut d = fresh(1, 0);
    d.handle_command(Command::Pause, clock(30), None);
    for now in 31..400 {
        assert!(!d.handle_tick(clock(now)));
    }
    d.handle_command(Command::Resume, clock(400), None);
    assert!(!d.handle_tick(clock(400)));
    assert!(!d.handle_tick(clock(459)));
    assert!(d.handle_tick(clock(460)));
}

#[test]
fn reload_installs_the_loaded_snapshot() {
    let mut d = fresh(10, 0);
    let newer = Config { interval: 3, volume: 10, log_level: String::from("debug") };
    let r = d.handle_command(Command::Reload, clock(1), Some(Ok(newer.clone())));
    assert_eq!(r, Response::Okay);
    assert_eq!(d.config, newer);
}

#[test]
fn failed_reload_keeps_the_previous_snapshot() {
    let mut d = fresh(10, 0);
    let before = d.config.clone();
    let r = d.handle_command(
        Command::Reload,
        clock(1),
        Some(Err(String::from("interval must be greater than 0"))),
    );
    assert_eq!(
        r,
        Response::Error(String::from(
            "failed to reload config: interval must be greater than 0"
        ))
    );
    assert_eq!(d.config, before);
    assert_eq!(d.state, DaemonState::Running);
}

#[test]
fn ring_updates_the_stats_record() {
    let mut d = fresh(10, 0);
    d.handle_command(Command::Ring, clock(5), None);
    assert_eq!(d.stats.total_bells, 1);
    assert_eq!(d.stats.current_streak, 1);
    assert_eq!(d.stats.last_ring, Some(1_700_000_000));
    assert_eq!(d.stats.last_active_date, Some(20_000));
}
