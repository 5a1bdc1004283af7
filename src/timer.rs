use vstd::prelude::*;

verus! {

/// Milliseconds between two wakes of the tick worker.
pub const TICK_MILLIS: u64 = 500;

/// Phase of the focus timer.
#[derive(Clone, Copy, Debug, PartialEq, Eq, Structural)]
pub enum TimerState {
    Idle,
    Working,
    Breaking,
    Paused,
}

impl Default for TimerState {
    fn default() -> (r: Self)
        ensures
            r == TimerState::Idle,
    {
        TimerState::Idle
    }
}

impl TimerState {
    /// The label under which the state is shown to listeners.
    pub fn as_str(&self) -> (r: &'static str)
        ensures
            *self == TimerState::Idle ==> r@ == "idle"@,
            *self == TimerState::Working ==> r@ == "working"@,
            *self == TimerState::Breaking ==> r@ == "break"@,
            *self == TimerState::Paused ==> r@ == "paused"@,
    {
        match self {
            TimerState::Idle => "idle",
            TimerState::Working => "working",
            TimerState::Breaking => "break",
            TimerState::Paused => "paused",
        }
    }

    pub open spec fn is_running_phase(self) -> bool {
        self == TimerState::Working || self == TimerState::Breaking
    }
}

/// A phase length in minutes as seconds, saturated at `u32::MAX`.
pub open spec fn minutes_to_secs(m: u32) -> u32 {
    if m * 60 > u32::MAX {
        u32::MAX
    } else {
        (m * 60) as u32
    }
}

pub fn minutes_as_secs(m: u32) -> (r: u32)
    ensures
        r == minutes_to_secs(m),
{
    if m > u32::MAX / 60 {
        u32::MAX
    } else {
        m * 60
    }
}

/// Snapshot of the timer shown to listeners.
#[derive(Clone, Copy, Debug, PartialEq, Eq, Structural)]
pub struct TimerStatus {
    pub state: TimerState,
    pub remaining_seconds: u32,
    pub total_seconds: u32,
    pub emergency_remaining: u32,
    pub previous_state: Option<TimerState>,
    pub work_minutes: u32,
    pub break_minutes: u32,
}

impl TimerStatus {
    /// `previous_state` is set exactly while paused, and names the phase to go back to;
    /// the countdown never exceeds the phase length.
    pub open spec fn wf(&self) -> bool {
        &&& (self.state == TimerState::Paused) == self.previous_state.is_some()
        &&& (self.previous_state matches Some(p) ==> p.is_running_phase())
        &&& self.remaining_seconds <= self.total_seconds
    }

    pub open spec fn idle_with(work_minutes: u32, break_minutes: u32, emergency: u32) -> TimerStatus {
        TimerStatus {
            state: TimerState::Idle,
            remaining_seconds: 0,
            total_seconds: 0,
            emergency_remaining: emergency,
            previous_state: None,
            work_minutes,
            break_minutes,
        }
    }

    /// An idle timer with the configured durations and override quota.
    pub fn new_with_config(work_minutes: u32, break_minutes: u32, emergency_limit: u32) -> (r: Self)
        ensures
            r == Self::idle_with(work_minutes, break_minutes, emergency_limit),
            r.wf(),
    {
        TimerStatus {
            state: TimerState::Idle,
            remaining_seconds: 0,
            total_seconds: 0,
            emergency_remaining: emergency_limit,
            previous_state: None,
            work_minutes,
            break_minutes,
        }
    }
}

impl Default for TimerStatus {
    fn default() -> (r: Self)
        ensures
            r == TimerStatus::idle_with(25, 5, 2),
            r.wf(),
    {
        TimerStatus::new_with_config(25, 5, 2)
    }
}


/// `a + b` for `b >= 0`, saturated at `u64::MAX`.
pub open spec fn sat_add(a: u64, b: int) -> u64 {
    if a + b > u64::MAX {
        u64::MAX
    } else {
        (a + b) as u64
    }
}

/// Whole seconds from `now_ms` until `end_ms`, zero once the end has passed.
pub open spec fn secs_until(end_ms: u64, now_ms: u64) -> int {
    if end_ms <= now_ms {
        0
    } else {
        (end_ms - now_ms) / 1000
    }
}

/// Wall-clock anchor of the tick worker: when the current phase ends, and when a
/// pause was first observed (both in milliseconds since the epoch).
#[derive(Clone, Copy, Debug, PartialEq, Eq, Structural)]
pub struct PhaseClock {
    pub end_ms: u64,
    pub paused_at_ms: Option<u64>,
}

/// What a wake of the tick worker did.
#[derive(Clone, Copy, Debug, PartialEq, Eq, Structural)]
pub enum TickOutcome {
    /// The worker must end.
    Halt,
    /// Nothing advanced (paused).
    Hold,
    /// The countdown was refreshed; a status update is due.
    Update,
    /// Working ended and Breaking began.
    WorkComplete,
    /// Breaking ended; the session is over and the worker must clean up and end.
    BreakComplete,
}

impl PhaseClock {
    /// A clock whose phase ends `remaining_secs` seconds after `now_ms`.
    pub fn starting(now_ms: u64, remaining_secs: u32) -> (r: PhaseClock)
        ensures
            r == (PhaseClock { end_ms: sat_add(now_ms, remaining_secs * 1000), paused_at_ms: None }),
    {
        let d: u64 = remaining_secs as u64 * 1000;
        let end_ms: u64 = if now_ms > u64::MAX - d { u64::MAX } else { now_ms + d };
        PhaseClock { end_ms, paused_at_ms: None }
    }
}

/// The end instant once a pause that began at `paused_at_ms` is over at `now_ms`:
/// the paused span is added, so pausing neither costs nor grants time.
pub open spec fn resumed_end(c: PhaseClock, now_ms: u64) -> u64 {
    match c.paused_at_ms {
        Some(p) => sat_add(c.end_ms, if now_ms >= p { now_ms - p } else { 0 }),
        None => c.end_ms,
    }
}

/// The countdown shown at `now_ms`: seconds to the end, at most the phase length.
pub open spec fn shown_remaining(end_ms: u64, now_ms: u64, total: u32) -> u32 {
    if secs_until(end_ms, now_ms) > total {
        total
    } else {
        secs_until(end_ms, now_ms) as u32
    }
}

/// One wake of the tick worker at `now_ms`, given the stop and pause signals.
pub open spec fn tick_spec(
    s: TimerStatus,
    c: PhaseClock,
    now_ms: u64,
    stop: bool,
    pause: bool,
) -> (TimerStatus, PhaseClock, TickOutcome) {
    if stop {
        (s, c, TickOutcome::Halt)
    } else if pause {
        let p = if c.paused_at_ms.is_some() { c.paused_at_ms } else { Some(now_ms) };
        (s, PhaseClock { end_ms: c.end_ms, paused_at_ms: p }, TickOutcome::Hold)
    } else {
        let c1 = PhaseClock { end_ms: resumed_end(c, now_ms), paused_at_ms: None };
        if s.state == TimerState::Idle {
            (s, c1, TickOutcome::Halt)
        } else if s.state == TimerState::Paused {
            (s, c1, TickOutcome::Hold)
        } else {
            let r = shown_remaining(c1.end_ms, now_ms, s.total_seconds);
            if r > 0 {
                (TimerStatus { remaining_seconds: r, ..s }, c1, TickOutcome::Update)
            } else if s.state == TimerState::Working {
                let b = minutes_to_secs(s.break_minutes);
                (
                    TimerStatus {
                        state: TimerState::Breaking,
                        remaining_seconds: b,
                        total_seconds: b,
                        ..s
                    },
                    PhaseClock { end_ms: sat_add(now_ms, b * 1000), paused_at_ms: None },
                    TickOutcome::WorkComplete,
                )
            } else {
                (
                    TimerStatus { state: TimerState::Idle, remaining_seconds: 0, total_seconds: 0, ..s },
                    c1,
                    TickOutcome::BreakComplete,
                )
            }
        }
    }
}

fn add_saturating(a: u64, b: u64) -> (r: u64)
    ensures
        r == sat_add(a, b as int),
{
    if a > u64::MAX - b {
        u64::MAX
    } else {
        a + b
    }
}

/// One wake of the tick worker. A pause records its first instant; the first wake after
/// it shifts the end forward by the paused span. The countdown is recomputed from the
/// wall clock; at zero, Working turns into Breaking (anchored at `now_ms`) and Breaking
/// into Idle.
pub fn tick(
    status: &mut TimerStatus,
    clock: &mut PhaseClock,
    now_ms: u64,
    stop: bool,
    pause: bool,
) -> (out: TickOutcome)
    ensures
        (*final(status), *final(clock), out) == tick_spec(*old(status), *old(clock), now_ms, stop, pause),
        old(status).wf() ==> final(status).wf(),
{
    if stop {
        return TickOutcome::Halt;
    }
    if pause {
        if clock.paused_at_ms.is_none() {
            clock.paused_at_ms = Some(now_ms);
        }
        return TickOutcome::Hold;
    }
    match clock.paused_at_ms {
        Some(p) => {
            let span: u64 = if now_ms >= p { now_ms - p } else { 0 };
            clock.end_ms = add_saturating(clock.end_ms, span);
            clock.paused_at_ms = None;
        },
        None => {},
    }
    if status.state == TimerState::Idle {
        return TickOutcome::Halt;
    }
    if status.state == TimerState::Paused {
        return TickOutcome::Hold;
    }
    let secs: u64 = if clock.end_ms <= now_ms { 0 } else { (clock.end_ms - now_ms) / 1000 };
    let r: u32 = if secs > status.total_seconds as u64 { status.total_seconds } else { secs as u32 };
    if r > 0 {
        status.remaining_seconds = r;
        return TickOutcome::Update;
    }
    if status.state == TimerState::Working {
        let b = minutes_as_secs(status.break_minutes);
        status.state = TimerState::Breaking;
        status.remaining_seconds = b;
        status.total_seconds = b;
        *clock = PhaseClock { end_ms: add_saturating(now_ms, b as u64 * 1000), paused_at_ms: None };
        TickOutcome::WorkComplete
    } else {
        status.state = TimerState::Idle;
        status.remaining_seconds = 0;
        status.total_seconds = 0;
        TickOutcome::BreakComplete
    }
}

/// A wake never moves the timer against the order Idle → Working → Breaking → Idle:
/// Working either stays or turns into a full-length break, Breaking either stays or
/// ends the session, and an idle or paused timer is left as it is.
pub proof fn lemma_phase_order(s: TimerStatus, c: PhaseClock, now_ms: u64, stop: bool, pause: bool)
    requires
        s.wf(),
    ensures
        ({
            let (s2, c2, o) = tick_spec(s, c, now_ms, stop, pause);
            &&& s2.wf()
            &&& s.state == TimerState::Working ==> (s2.state == TimerState::Working || (
                s2.state == TimerState::Breaking && o == TickOutcome::WorkComplete
                    && s2.remaining_seconds == minutes_to_secs(s.break_minutes)
                    && s2.total_seconds == minutes_to_secs(s.break_minutes)))
            &&& s.state == TimerState::Breaking ==> (s2.state == TimerState::Breaking || (
                s2.state == TimerState::Idle && o == TickOutcome::BreakComplete))
            &&& (s.state == TimerState::Idle || s.state == TimerState::Paused) ==> s2 == s
            &&& o == TickOutcome::WorkComplete ==> s.state == TimerState::Working
            &&& o == TickOutcome::BreakComplete ==> s.state == TimerState::Breaking
        }),
{
}

/// Within a phase the countdown never goes up: of two unpaused wakes at `t1 <= t2`
/// that both stay in the phase, the later shows no more seconds than the earlier.
pub proof fn lemma_countdown_non_increasing(s: TimerStatus, c: PhaseClock, t1: u64, t2: u64)
    requires
        s.wf(),
        s.state.is_running_phase(),
        c.paused_at_ms.is_none(),
        t1 <= t2,
    ensures
        ({
            let (s1, c1, o1) = tick_spec(s, c, t1, false, false);
            let (s2, c2, o2) = tick_spec(s1, c1, t2, false, false);
            o1 == TickOutcome::Update && o2 == TickOutcome::Update ==> {
                &&& s2.state == s1.state
                &&& s2.remaining_seconds <= s1.remaining_seconds
            }
        }),
{
    if c.end_ms > t2 {
        vstd::arithmetic::div_mod::lemma_div_is_ordered(c.end_ms - t2, c.end_ms - t1, 1000);
    }
}

/// Pausing neither costs nor grants time: a wake that sees the pause signal at `t1`,
/// any further paused wakes, and the first unpaused wake at `t2 >= t1` leave the timer
/// as a wake at `t1` would have left it, whatever `t2` is.
pub proof fn lemma_pause_is_free(s: TimerStatus, c: PhaseClock, t1: u64, t: u64, t2: u64)
    requires
        s.wf(),
        s.state.is_running_phase(),
        c.paused_at_ms.is_none(),
        t1 <= t2,
        c.end_ms + (t2 - t1) <= u64::MAX,
    ensures
        ({
            let (s1, c1, o1) = tick_spec(s, c, t1, false, true);
            let (s3, c3, o3) = tick_spec(s1, c1, t, false, true);
            let (s2, c2, o2) = tick_spec(s3, c3, t2, false, false);
            let (sr, cr, orr) = tick_spec(s, c, t1, false, false);
            &&& o1 == TickOutcome::Hold && s1 == s
            &&& o3 == TickOutcome::Hold && s3 == s && c3 == c1
            &&& s2 == sr
            &&& o2 == orr
        }),
{
    let d = t2 - t1;
    assert(resumed_end(PhaseClock { end_ms: c.end_ms, paused_at_ms: Some(t1) }, t2) == c.end_ms + d);
    assert(secs_until((c.end_ms + d) as u64, t2) == secs_until(c.end_ms, t1));
}

/// Position of a phase in the order Working → Breaking → Idle.
pub open spec fn phase_rank(st: TimerState) -> int {
    match st {
        TimerState::Working => 0,
        TimerState::Breaking => 1,
        _ => 2,
    }
}

/// The status and clock after each of a run of wakes at `times`, with neither the stop
/// nor the pause signal raised.
pub open spec fn run_wakes(s: TimerStatus, c: PhaseClock, times: Seq<u64>) -> Seq<(TimerStatus, PhaseClock)>
    decreases times.len(),
{
    if times.len() == 0 {
        Seq::empty()
    } else {
        let (s1, c1, o) = tick_spec(s, c, times[0], false, false);
        seq![(s1, c1)] + run_wakes(s1, c1, times.subrange(1, times.len() as int))
    }
}

/// A status the tick worker can run from: well formed, not paused, clock not paused.
pub open spec fn runnable(s: TimerStatus, c: PhaseClock) -> bool {
    s.wf() && s.state != TimerState::Paused && c.paused_at_ms.is_none()
}

proof fn lemma_wake_step(s: TimerStatus, c: PhaseClock, t1: u64, t2: u64)
    requires
        runnable(s, c),
        t1 <= t2,
    ensures
        ({
            let (s1, c1, o1) = tick_spec(s, c, t1, false, false);
            let (s2, c2, o2) = tick_spec(s1, c1, t2, false, false);
            &&& runnable(s1, c1)
            &&& phase_rank(s.state) <= phase_rank(s1.state) <= phase_rank(s.state) + 1
            &&& phase_rank(s1.state) <= phase_rank(s2.state)
            &&& (s1.state == s2.state && s1.state.is_running_phase() ==> s2.remaining_seconds <= s1.remaining_seconds)
        }),
{
    let (s1, c1, o1) = tick_spec(s, c, t1, false, false);
    lemma_phase_order(s, c, t1, false, false);
    lemma_phase_order(s1, c1, t2, false, false);
    if c1.end_ms > t2 {
        vstd::arithmetic::div_mod::lemma_div_is_ordered(c1.end_ms - t2, c1.end_ms - t1, 1000);
    }
}

/// A session left to run moves only forward through Working → Breaking → Idle, one
/// phase at a time, and within a phase its countdown never goes up: over any run of
/// unpaused wakes at non-decreasing instants.
#[verifier::spinoff_prover]
#[verifier::rlimit(100)]
pub proof fn lemma_run_in_order(s: TimerStatus, c: PhaseClock, times: Seq<u64>)
    requires
        runnable(s, c),
        forall|j: int| 0 <= j < times.len() - 1 ==> times[j] <= #[trigger] times[j + 1],
    ensures
        ({
            let r = run_wakes(s, c, times);
            &&& r.len() == times.len()
            &&& (r.len() > 0 ==> phase_rank(s.state) <= phase_rank(r[0].0.state) <= phase_rank(s.state) + 1)
            &&& forall|j: int| 0 <= j < r.len() - 1 ==> {
                &&& phase_rank((#[trigger] r[j]).0.state) <= phase_rank(r[j + 1].0.state)
                &&& phase_rank(r[j + 1].0.state) <= phase_rank(r[j].0.state) + 1
                &&& (r[j].0.state == r[j + 1].0.state && r[j].0.state.is_running_phase()
                    ==> r[j + 1].0.remaining_seconds <= r[j].0.remaining_seconds)
            }
        }),
    decreases times.len(),
{
    if times.len() > 0 {
        let (s1, c1, o1) = tick_spec(s, c, times[0], false, false);
        let rest = times.subrange(1, times.len() as int);
        lemma_phase_order(s, c, times[0], false, false);
        assert(runnable(s1, c1));
        assert forall|j: int| 0 <= j < rest.len() - 1 implies rest[j] <= #[trigger] rest[j + 1] by {
            assert(rest[j] == times[j + 1] && rest[j + 1] == times[j + 2]);
        }
        lemma_run_in_order(s1, c1, rest);
        let r = run_wakes(s, c, times);
        let tail = run_wakes(s1, c1, rest);
        assert(r == seq![(s1, c1)] + tail);
        if times.len() > 1 {
            lemma_wake_step(s, c, times[0], times[1]);
            assert(rest[0] == times[1]);
        }
        assert forall|j: int| 0 <= j < r.len() - 1 implies {
            &&& phase_rank((#[trigger] r[j]).0.state) <= phase_rank(r[j + 1].0.state)
            &&& phase_rank(r[j + 1].0.state) <= phase_rank(r[j].0.state) + 1
            &&& (r[j].0.state == r[j + 1].0.state && r[j].0.state.is_running_phase()
                ==> r[j + 1].0.remaining_seconds <= r[j].0.remaining_seconds)
        } by {
            if j == 0 {
                assert(r[0] == (s1, c1));
                assert(r[1] == tail[0]);
                assert(rest[0] == times[1]);
            } else {
                assert(r[j] == tail[j - 1]);
                assert(r[j + 1] == tail[j]);
            }
        }
    }
}

/// A session runs to completion: a wake at or after the work end turns Working into a
/// full break anchored at that wake, and a later wake at or after the break's end turns
/// it into Idle.
pub proof fn lemma_run_reaches_idle(s: TimerStatus, c: PhaseClock, t1: u64, t2: u64)
    requires
        runnable(s, c),
        s.state == TimerState::Working,
        c.end_ms <= t1,
        t1 + minutes_to_secs(s.break_minutes) * 1000 <= t2,
    ensures
        ({
            let (s1, c1, o1) = tick_spec(s, c, t1, false, false);
            let (s2, c2, o2) = tick_spec(s1, c1, t2, false, false);
            &&& o1 == TickOutcome::WorkComplete
            &&& s1.state == TimerState::Breaking
            &&& s1.remaining_seconds == minutes_to_secs(s.break_minutes)
            &&& c1.end_ms == t1 + minutes_to_secs(s.break_minutes) * 1000
            &&& o2 == TickOutcome::BreakComplete
            &&& s2.state == TimerState::Idle
            &&& s2.remaining_seconds == 0
        }),
{
}

} // verus!
