use vstd::prelude::*;
use vstd::string::*;
use crate::config::{Config, joined};
use crate::errors::AppError;
use crate::timer::{TimerState, TimerStatus, minutes_to_secs, minutes_as_secs};

verus! {

/// Durable record of a session in progress, kept so that a restart can resume it.
/// End times are Unix epoch seconds.
#[derive(Debug, Clone)]
pub struct FocusSession {
    pub state: String,
    pub work_end_time: u64,
    pub break_end_time: u64,
    pub work_minutes: u32,
    pub break_minutes: u32,
    pub emergency_remaining: u32,
}

/// What a restart does with a stored session.
#[derive(Clone, Copy, Debug, PartialEq, Eq, Structural)]
pub enum Recovery {
    /// The break has ended too: the record is deleted and nothing is restored.
    Expired,
    /// The session goes on with this status.
    Resume(TimerStatus),
}

/// `x` as a `u32`, saturated.
pub open spec fn cap_u32(x: int) -> u32 {
    if x > u32::MAX {
        u32::MAX
    } else {
        x as u32
    }
}

/// The larger of two counts.
pub open spec fn larger(a: u32, b: u32) -> u32 {
    if a >= b { a } else { b }
}

/// The status that a restart at `now` rebuilds from `s` while `now < s.break_end_time`.
pub open spec fn resumed_status(s: FocusSession, now: u64) -> TimerStatus {
    let working = now < s.work_end_time;
    let left = if working { cap_u32(s.work_end_time - now) } else { cap_u32(s.break_end_time - now) };
    let phase = if working { minutes_to_secs(s.work_minutes) } else { minutes_to_secs(s.break_minutes) };
    TimerStatus {
        state: if working { TimerState::Working } else { TimerState::Breaking },
        remaining_seconds: left,
        total_seconds: larger(phase, left),
        emergency_remaining: s.emergency_remaining,
        previous_state: None,
        work_minutes: s.work_minutes,
        break_minutes: s.break_minutes,
    }
}

/// Largest start instant for which a session's end times fit in a `u64`.
pub const LATEST_START: u64 = 0xffff_fffc_0000_0000;

impl FocusSession {
    /// The work phase ends strictly before the break does.
    pub open spec fn wf(&self) -> bool {
        self.work_end_time < self.break_end_time
    }

    /// The record of a session that starts at `now`: work lasts `work_secs`,
    /// then the break lasts `break_minutes`.
    pub fn planned(now: u64, work_secs: u32, work_minutes: u32, break_minutes: u32, emergency_remaining: u32) -> (r: FocusSession)
        requires
            now <= LATEST_START,
        ensures
            r.state@ == "working"@,
            r.work_end_time == now + work_secs,
            r.break_end_time == now + work_secs + minutes_to_secs(break_minutes),
            r.work_minutes == work_minutes,
            r.break_minutes == break_minutes,
            r.emergency_remaining == emergency_remaining,
    {
        let work_end_time: u64 = now + work_secs as u64;
        let break_end_time: u64 = work_end_time + minutes_as_secs(break_minutes) as u64;
        FocusSession {
            state: String::from_str("working"),
            work_end_time,
            break_end_time,
            work_minutes,
            break_minutes,
            emergency_remaining,
        }
    }

    /// Decides, at `now`, whether the stored session goes on and in which phase.
    pub fn recover(&self, now: u64) -> (r: Recovery)
        ensures
            now >= self.break_end_time ==> r == Recovery::Expired,
            now < self.break_end_time ==> r == Recovery::Resume(resumed_status(*self, now)),
            r matches Recovery::Resume(st) ==> st.wf(),
    {
        if now >= self.break_end_time {
            return Recovery::Expired;
        }
        let working = now < self.work_end_time;
        let diff: u64 = if working { self.work_end_time - now } else { self.break_end_time - now };
        let left: u32 = if diff > u32::MAX as u64 { u32::MAX } else { diff as u32 };
        let phase: u32 = if working {
            minutes_as_secs(self.work_minutes)
        } else {
            minutes_as_secs(self.break_minutes)
        };
        let total: u32 = if phase >= left { phase } else { left };
        Recovery::Resume(TimerStatus {
            state: if working { TimerState::Working } else { TimerState::Breaking },
            remaining_seconds: left,
            total_seconds: total,
            emergency_remaining: self.emergency_remaining,
            previous_state: None,
            work_minutes: self.work_minutes,
            break_minutes: self.break_minutes,
        })
    }

    /// The session record under the home directory `home`.
    pub fn session_path_in(home: &str) -> (r: String)
        ensures
            r@ == joined(home@, "/Library/Application Support/pomodoro-focus/session.json"@),
    {
        String::from_str(home).concat("/Library/Application Support/pomodoro-focus/session.json")
    }

    /// Where the session record lives.
    pub fn session_path() -> (r: Result<String, AppError>)
        ensures
            r matches Ok(p) ==> exists|h: Seq<char>|
                p@ == joined(h, "/Library/Application Support/pomodoro-focus/session.json"@),
            r matches Err(e) ==> e matches AppError::ConfigError(_),
    {
        Config::home_child("/Library/Application Support/pomodoro-focus/session.json")
    }
}

} // verus!
