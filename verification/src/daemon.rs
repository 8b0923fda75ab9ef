//! The daemon orchestrator: the authoritative state machine that reconciles
//! control commands, session lock/unlock events and scheduler ticks, and
//! decides when a bell rings.
//!
//! The event loop itself (sockets, timers, signals) lives in the binary; it
//! owns a `Daemon` value, reads the clocks, and feeds every event through the
//! handlers here, which are the only place state changes.

use vstd::prelude::*;

use crate::config::Config;
use crate::ipc::{Command, Response, StatusInfo};
use crate::lock::LockEvent;
use crate::stats::Stats;

verus! {

/// The daemon-wide run state. Exactly one value at any time; resets to
/// `Running` on restart.
#[derive(Clone, Copy, Debug, PartialEq, Eq, Structural)]
pub enum DaemonState {
    Running,
    Paused,
    Locked,
}

impl DaemonState {
    /// The lower-case label used in status snapshots and error messages.
    pub open spec fn label_spec(self) -> Seq<char> {
        match self {
            DaemonState::Running => "running"@,
            DaemonState::Paused => "paused"@,
            DaemonState::Locked => "locked"@,
        }
    }

    /// The lower-case label used in status snapshots and error messages.
    pub fn label(&self) -> (r: String)
        ensures
            r@ == self.label_spec(),
    {
        match self {
            DaemonState::Running => String::from_str("running"),
            DaemonState::Paused => String::from_str("paused"),
            DaemonState::Locked => String::from_str("locked"),
        }
    }
}

/// One reading of the clocks, taken by the event loop when an event arrives
/// and passed unchanged to the handler that consumes the event.
///
/// `monotonic_secs` counts seconds on a monotonic clock (never decreasing
/// across the daemon's life); `wall_secs` is the unix time and `today` the
/// local calendar day number, both used only by the statistics record.
#[derive(Clone, Copy, Debug, PartialEq, Eq, Structural)]
pub struct Clock {
    pub monotonic_secs: u64,
    pub wall_secs: i64,
    pub today: i64,
}

/// The error message for a Pause command in a state other than Running.
pub open spec fn cannot_pause_msg(s: DaemonState) -> Seq<char> {
    "cannot pause: currently "@ + s.label_spec()
}

/// The error message for a Resume command in a state other than Paused.
pub open spec fn cannot_resume_msg(s: DaemonState) -> Seq<char> {
    "cannot resume: currently "@ + s.label_spec()
}

/// The error message for a failed configuration reload.
pub open spec fn reload_failed_msg(detail: Seq<char>) -> Seq<char> {
    "failed to reload config: "@ + detail
}

/// The orchestrator's working set. Owned exclusively by the event loop; all
/// other tasks interact with it through commands and events.
pub struct Daemon {
    /// The current configuration snapshot.
    pub config: Config,
    /// The authoritative run state.
    pub state: DaemonState,
    /// The persisted statistics record, updated on every ring.
    pub stats: Stats,
    /// Bells rung since the daemon started; reset only by restart.
    pub bells_this_session: u64,
    /// Monotonic instant of the last ring (daemon start before any ring).
    pub last_bell: u64,
    /// Latch: whether the bell was already paused when the session locked.
    /// Meaningful only while the state is Locked.
    pub was_paused_before_lock: bool,
}

impl Daemon {
    /// The arithmetic bounds every handler relies on.
    pub open spec fn wf(self) -> bool {
        self.config.daemon_ok()
    }

    /// The counters are far enough from their ceiling for one more ring.
    pub open spec fn can_ring(self) -> bool {
        self.bells_this_session < u64::MAX && self.stats.can_record()
    }

    /// The configured ring interval in seconds.
    pub open spec fn interval_secs(self) -> int {
        self.config.interval * 60
    }

    /// Whether a scheduler tick at monotonic instant `now` triggers a ring:
    /// only while Running, and only once the configured interval has elapsed
    /// since the last ring.
    pub open spec fn tick_fires(self, now: u64) -> bool {
        self.state is Running && now - self.last_bell >= self.interval_secs()
    }

    /// The context after a ring at `clock`: one more session bell, the
    /// statistics stepped by the streak rule, and the last-ring instant moved
    /// to now. The run state is untouched.
    pub open spec fn rung(self, clock: Clock) -> Daemon {
        Daemon {
            bells_this_session: (self.bells_this_session + 1) as u64,
            stats: self.stats.recorded(clock.wall_secs, clock.today),
            last_bell: clock.monotonic_secs,
            ..self
        }
    }

    /// The context after a lock event at monotonic instant `now`.
    ///
    /// Locked latches whether the bell was paused and enters Locked (a no-op
    /// if already Locked). Unlocked restores the latched state: back to
    /// Paused, or back to Running with the ring timer restarted at the unlock
    /// instant so time spent locked does not count toward the interval.
    /// Unlocked while not Locked is a no-op.
    pub open spec fn lock_stepped(self, event: LockEvent, now: u64) -> Daemon {
        match event {
            LockEvent::Locked => if self.state is Running {
                Daemon { state: DaemonState::Locked, was_paused_before_lock: false, ..self }
            } else if self.state is Paused {
                Daemon { state: DaemonState::Locked, was_paused_before_lock: true, ..self }
            } else {
                self
            },
            LockEvent::Unlocked => if self.state is Locked {
                if self.was_paused_before_lock {
                    Daemon { state: DaemonState::Paused, ..self }
                } else {
                    Daemon { state: DaemonState::Running, last_bell: now, ..self }
                }
            } else {
                self
            },
        }
    }

    /// Seconds until the next scheduled ring as reported by Status: absent
    /// unless Running, zero once the interval has already elapsed.
    pub open spec fn next_bell_in(self, now: u64) -> Option<u64> {
        if self.state is Running {
            if now - self.last_bell >= self.interval_secs() {
                Option::Some(0u64)
            } else {
                Option::Some((self.interval_secs() - (now - self.last_bell)) as u64)
            }
        } else {
            Option::None
        }
    }

    /// A fresh context: Running, no bells yet, the ring timer started at
    /// daemon-start instant `now`, with the given configuration snapshot and
    /// the statistics record loaded by the caller.
    pub fn new(config: Config, stats: Stats, now: u64) -> (d: Daemon)
        requires
            config.daemon_ok(),
        ensures
            d == (Daemon {
                config,
                state: DaemonState::Running,
                stats,
                bells_this_session: 0,
                last_bell: now,
                was_paused_before_lock: false,
            }),
            d.wf(),
    {
        Daemon {
            config,
            state: DaemonState::Running,
            stats,
            bells_this_session: 0,
            last_bell: now,
            was_paused_before_lock: false,
        }
    }

    /// Ring the bell now: one more session bell, the statistics stepped, the
    /// last-ring instant moved to `clock`. The caller plays the sound and
    /// persists the statistics afterwards; neither can change the outcome
    /// here.
    pub fn ring_bell(&mut self, clock: Clock)
        requires
            old(self).can_ring(),
        ensures
            *final(self) == old(self).rung(clock),
    {
        self.bells_this_session = self.bells_this_session + 1;
        self.stats.record_bell(clock.wall_secs, clock.today);
        self.last_bell = clock.monotonic_secs;
    }

    /// Consume one scheduler tick. Returns whether a ring fired: exactly when
    /// Running and the configured interval has elapsed since the last ring.
    /// Ticks never advance the timer or touch any state unless a ring fires.
    pub fn handle_tick(&mut self, clock: Clock) -> (fired: bool)
        requires
            old(self).wf(),
            clock.monotonic_secs >= old(self).last_bell,
            old(self).can_ring(),
        ensures
            fired == old(self).tick_fires(clock.monotonic_secs),
            fired ==> *final(self) == old(self).rung(clock),
            !fired ==> *final(self) == *old(self),
    {
        if self.state == DaemonState::Running {
            let interval_secs: u64 = self.config.interval * 60;
            let elapsed: u64 = clock.monotonic_secs - self.last_bell;
            if elapsed >= interval_secs {
                self.ring_bell(clock);
                return true;
            }
        }
        false
    }

    /// Consume one lock event, as `lock_stepped` describes.
    pub fn handle_lock_event(&mut self, event: LockEvent, now: u64)
        ensures
            *final(self) == old(self).lock_stepped(event, now),
    {
        match event {
            LockEvent::Locked => {
                if self.state == DaemonState::Running {
                    self.state = DaemonState::Locked;
                    self.was_paused_before_lock = false;
                } else if self.state == DaemonState::Paused {
                    self.state = DaemonState::Locked;
                    self.was_paused_before_lock = true;
                }
            },
            LockEvent::Unlocked => {
                if self.state == DaemonState::Locked {
                    if self.was_paused_before_lock {
                        self.state = DaemonState::Paused;
                    } else {
                        self.state = DaemonState::Running;
                        self.last_bell = now;
                    }
                }
            },
        }
    }

    /// Answer one control command.
    ///
    /// Pause and Resume follow the transition table: they succeed only from
    /// Running respectively Paused, and otherwise change nothing and name the
    /// current state in the error. Resume restarts the ring timer at the
    /// resume instant, so time spent paused does not count toward the
    /// interval. Stop changes nothing here (the event loop terminates after
    /// relaying the Ok). Status reports a snapshot of this very context. Ring
    /// rings regardless of state and leaves the run state alone. Reload
    /// installs the configuration the caller loaded, or reports the load
    /// failure and keeps the previous configuration.
    ///
    /// For Reload the caller passes the outcome of loading the configuration
    /// file; it must already satisfy the daemon's arithmetic bounds.
    pub fn handle_command(
        &mut self,
        command: Command,
        clock: Clock,
        reload: Option<Result<Config, String>>,
    ) -> (r: Response)
        requires
            old(self).wf(),
            clock.monotonic_secs >= old(self).last_bell,
            command is Ring ==> old(self).can_ring(),
            command is Reload ==> reload is Some,
            reload matches Option::Some(Result::Ok(c)) ==> c.daemon_ok(),
        ensures
            final(self).wf(),
            command is Pause && old(self).state is Running ==> *final(self) == (Daemon {
                state: DaemonState::Paused,
                ..*old(self)
            }) && r == Response::Okay,
            command is Pause && !(old(self).state is Running) ==> *final(self) == *old(self) && (
            r matches Response::Error(m) && m@ == cannot_pause_msg(old(self).state)),
            command is Resume && old(self).state is Paused ==> *final(self) == (Daemon {
                state: DaemonState::Running,
                last_bell: clock.monotonic_secs,
                ..*old(self)
            }) && r == Response::Okay,
            command is Resume && !(old(self).state is Paused) ==> *final(self) == *old(self) && (
            r matches Response::Error(m) && m@ == cannot_resume_msg(old(self).state)),
            command is Stop ==> *final(self) == *old(self) && r == Response::Okay,
            command is Status ==> *final(self) == *old(self) && (r matches Response::Status(si)
                && si.state@ == old(self).state.label_spec() && si.next_bell_secs == old(
                self,
            ).next_bell_in(clock.monotonic_secs) && si.interval_mins == old(self).config.interval
                && si.total_bells_session == old(self).bells_this_session),
            command is Ring ==> *final(self) == old(self).rung(clock) && r == Response::Okay,
            command is Reload ==> (reload matches Option::Some(Result::Ok(c)) ==> *final(self)
                == (Daemon { config: c, ..*old(self) }) && r == Response::Okay),
            command is Reload ==> (reload matches Option::Some(Result::Err(m)) ==> *final(self)
                == *old(self) && (r matches Response::Error(e) && e@ == reload_failed_msg(m@))),
    {
        match command {
            Command::Pause => {
                if self.state == DaemonState::Running {
                    self.state = DaemonState::Paused;
                    Response::Okay
                } else {
                    let mut m = String::from_str("cannot pause: currently ");
                    m.append(self.state.label().as_str());
                    Response::Error(m)
                }
            },
            Command::Resume => {
                if self.state == DaemonState::Paused {
                    self.state = DaemonState::Running;
                    self.last_bell = clock.monotonic_secs;
                    Response::Okay
                } else {
                    let mut m = String::from_str("cannot resume: currently ");
                    m.append(self.state.label().as_str());
                    Response::Error(m)
                }
            },
            Command::Stop => Response::Okay,
            Command::Status => {
                let next_bell_secs: Option<u64> = if self.state == DaemonState::Running {
                    let interval_secs: u64 = self.config.interval * 60;
                    let elapsed: u64 = clock.monotonic_secs - self.last_bell;
                    if elapsed >= interval_secs {
                        Some(0)
                    } else {
                        Some(interval_secs - elapsed)
                    }
                } else {
                    None
                };
                Response::Status(StatusInfo {
                    state: self.state.label(),
                    next_bell_secs,
                    interval_mins: self.config.interval,
                    total_bells_session: self.bells_this_session,
                })
            },
            Command::Ring => {
                self.ring_bell(clock);
                Response::Okay
            },
            Command::Reload => {
                match reload {
                    Some(outcome) => match outcome {
                        Ok(c) => {
                            self.config = c;
                            Response::Okay
                        },
                        Err(detail) => {
                            let mut m = String::from_str("failed to reload config: ");
                            m.append(detail.as_str());
                            Response::Error(m)
                        },
                    },
                    None => {
                        proof {
                            assert(false);
                        }
                        Response::Okay
                    },
                }
            },
        }
    }
}

/// A context whose ring timer was just restarted never rings on a tick taken
/// at that same instant.
pub proof fn lemma_no_immediate_ring(d: Daemon, now: u64)
    requires
        d.wf(),
        d.last_bell == now,
    ensures
        !d.tick_fires(now),
{
}

/// A second Locked event in a row changes nothing: neither the latch nor the
/// state, whenever it arrives.
pub proof fn lemma_locked_idempotent(d: Daemon, n1: u64, n2: u64)
    ensures
        d.lock_stepped(LockEvent::Locked, n1).lock_stepped(LockEvent::Locked, n2)
            == d.lock_stepped(LockEvent::Locked, n1),
{
}

/// Unlock after lock-from-Running restores Running and restarts the ring
/// timer at the unlock instant, so no ring fires at that instant no matter
/// how much time passed while locked.
pub proof fn lemma_unlock_after_lock_from_running(d: Daemon, n1: u64, n2: u64)
    requires
        d.wf(),
        d.state is Running,
    ensures
        ({
            let d2 = d.lock_stepped(LockEvent::Locked, n1).lock_stepped(LockEvent::Unlocked, n2);
            d2 == (Daemon {
                state: DaemonState::Running,
                last_bell: n2,
                was_paused_before_lock: false,
                ..d
            }) && !d2.tick_fires(n2)
        }),
{
    let d2 = d.lock_stepped(LockEvent::Locked, n1).lock_stepped(LockEvent::Unlocked, n2);
    lemma_no_immediate_ring(d2, n2);
}

/// Unlock after lock-from-Paused restores Paused with the ring timer
/// untouched, and no tick ever rings while Paused, regardless of elapsed
/// time.
pub proof fn lemma_unlock_after_lock_from_paused(d: Daemon, n1: u64, n2: u64)
    requires
        d.state is Paused,
    ensures
        ({
            let d2 = d.lock_stepped(LockEvent::Locked, n1).lock_stepped(LockEvent::Unlocked, n2);
            d2 == (Daemon { state: DaemonState::Paused, was_paused_before_lock: true, ..d })
                && forall|m: u64| !d2.tick_fires(m)
        }),
{
}

/// A ring moves the session counter up by exactly one and the ring timer to
/// the ring instant, and leaves the run state, the latch and the
/// configuration untouched.
pub proof fn lemma_ring_preserves_state(d: Daemon, clock: Clock)
    requires
        d.can_ring(),
    ensures
        d.rung(clock).state == d.state,
        d.rung(clock).was_paused_before_lock == d.was_paused_before_lock,
        d.rung(clock).config == d.config,
        d.rung(clock).bells_this_session == d.bells_this_session + 1,
        d.rung(clock).last_bell == clock.monotonic_secs,
{
}

} // verus!
