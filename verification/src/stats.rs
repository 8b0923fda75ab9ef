//! Persisted usage statistics and the streak-update rule applied once per
//! successful ring. Storage is done by the binary; the rule itself is here.
//!
//! Instants are unix timestamps in seconds; calendar days are day numbers
//! (consecutive integers, one per local calendar date).

use vstd::prelude::*;

verus! {

/// The persisted record: totals, streaks, and the last activity marks.
#[derive(Clone, Debug, PartialEq, Eq)]
pub struct Stats {
    /// Total number of bells rung.
    pub total_bells: u64,
    /// Number of unique days the bell has been active.
    pub days_active: u64,
    /// Current consecutive-day streak.
    pub current_streak: u64,
    /// Longest consecutive-day streak ever.
    pub longest_streak: u64,
    /// Unix timestamp of the last ring, if any.
    pub last_ring: Option<i64>,
    /// Day number of the last activity, if any (for streak calculation).
    pub last_active_date: Option<i64>,
}

impl Default for Stats {
    fn default() -> (s: Stats)
        ensures
            s == Stats::empty(),
    {
        Stats {
            total_bells: 0,
            days_active: 0,
            current_streak: 0,
            longest_streak: 0,
            last_ring: None,
            last_active_date: None,
        }
    }
}

impl Stats {
    /// The record before any ring was ever recorded.
    pub open spec fn empty() -> Stats {
        Stats {
            total_bells: 0,
            days_active: 0,
            current_streak: 0,
            longest_streak: 0,
            last_ring: None,
            last_active_date: None,
        }
    }

    /// The counters are far enough from their ceiling for one more ring.
    pub open spec fn can_record(self) -> bool {
        &&& self.total_bells < u64::MAX
        &&& self.days_active < u64::MAX
        &&& self.current_streak < u64::MAX
    }

    /// The streak rule: what the record becomes when a ring happens at unix
    /// time `now_secs` on calendar day `today`.
    pub open spec fn recorded(self, now_secs: i64, today: i64) -> Stats {
        let stepped = match self.last_active_date {
            Option::None => Stats { current_streak: 1, days_active: 1, ..self },
            Option::Some(last) => if today == last {
                self
            } else if today == last + 1 {
                Stats {
                    current_streak: (self.current_streak + 1) as u64,
                    days_active: (self.days_active + 1) as u64,
                    ..self
                }
            } else {
                Stats { current_streak: 1, days_active: (self.days_active + 1) as u64, ..self }
            },
        };
        Stats {
            total_bells: (stepped.total_bells + 1) as u64,
            last_ring: Option::Some(now_secs),
            last_active_date: Option::Some(today),
            longest_streak: if stepped.current_streak > stepped.longest_streak {
                stepped.current_streak
            } else {
                stepped.longest_streak
            },
            ..stepped
        }
    }

    /// Record one ring at unix time `now_secs` on calendar day `today`.
    ///
    /// The streak either continues (consecutive day), restarts (gap or an
    /// out-of-order date), or is untouched (same day); the longest streak
    /// never decreases and always bounds the current one.
    pub fn record_bell(&mut self, now_secs: i64, today: i64)
        requires
            old(self).can_record(),
        ensures
            *final(self) == old(self).recorded(now_secs, today),
            final(self).longest_streak >= old(self).longest_streak,
            final(self).current_streak <= final(self).longest_streak,
            final(self).total_bells == old(self).total_bells + 1,
    {
        self.total_bells = self.total_bells + 1;
        self.last_ring = Some(now_secs);
        match self.last_active_date {
            Some(last) => {
                let diff: i128 = (today as i128) - (last as i128);
                if diff == 0 {
                    // Same day: streak and active-day count are unchanged.
                } else if diff == 1 {
                    self.current_streak = self.current_streak + 1;
                    self.days_active = self.days_active + 1;
                } else {
                    self.current_streak = 1;
                    self.days_active = self.days_active + 1;
                }
            },
            None => {
                self.current_streak = 1;
                self.days_active = 1;
            },
        }
        self.last_active_date = Some(today);
        if self.current_streak > self.longest_streak {
            self.longest_streak = self.current_streak;
        }
    }

    /// Clear the record back to its initial state.
    pub fn reset(&mut self)
        ensures
            *final(self) == Stats::empty(),
    {
        self.total_bells = 0;
        self.days_active = 0;
        self.current_streak = 0;
        self.longest_streak = 0;
        self.last_ring = None;
        self.last_active_date = None;
    }
}

} // verus!
