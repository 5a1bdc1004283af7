use vstd::prelude::*;
use vstd::string::*;
use crate::config::Schedule;
use crate::errors::AppError;
use crate::text::{char_len, find_from, next_index, slice_text};

verus! {

/// Seconds between two checks of the schedule.
pub const CHECK_INTERVAL_SECS: u64 = 30;

/// Every character of `s` is an ASCII digit.
pub open spec fn all_digits(s: Seq<char>) -> bool {
    forall|i: int| 0 <= i < s.len() ==> '0' <= #[trigger] s[i] && s[i] <= '9'
}

/// The number written by the digits of `s`.
pub open spec fn digits_value(s: Seq<char>) -> int
    decreases s.len(),
{
    if s.len() == 0 {
        0
    } else {
        digits_value(s.drop_last()) * 10 + (s.last() as int - '0' as int)
    }
}

/// What `str::parse::<u32>` gives for `s`: an optional `+`, then one or more digits
/// whose value fits in a `u32`.
pub open spec fn parsed_u32(s: Seq<char>) -> Option<u32> {
    let t = if s.len() > 0 && s[0] == '+' { s.subrange(1, s.len() as int) } else { s };
    if t.len() > 0 && all_digits(t) && digits_value(t) <= u32::MAX {
        Some(digits_value(t) as u32)
    } else {
        None
    }
}

proof fn lemma_digits_prefix(s: Seq<char>, i: int)
    requires
        all_digits(s),
        0 <= i <= s.len(),
    ensures
        0 <= digits_value(s.subrange(0, i)) <= digits_value(s),
    decreases s.len(),
{
    if s.len() > 0 {
        assert(all_digits(s.drop_last()));
        if i < s.len() {
            assert(s.drop_last().subrange(0, i) =~= s.subrange(0, i));
            lemma_digits_prefix(s.drop_last(), i);
        } else {
            assert(s.subrange(0, i) =~= s);
            lemma_digits_prefix(s.drop_last(), 0);
        }
    } else {
        assert(s.subrange(0, i) =~= s);
    }
}

/// Reads an unsigned decimal number as `str::parse::<u32>` does.
pub fn parse_u32(s: &str) -> (r: Option<u32>)
    ensures
        r == parsed_u32(s@),
{
    let n = char_len(s);
    let start: usize = if n > 0 && s.get_char(0) == '+' { 1 } else { 0 };
    let ghost t = if s@.len() > 0 && s@[0] == '+' { s@.subrange(1, s@.len() as int) } else { s@ };
    assert(t =~= s@.subrange(start as int, n as int));
    assert(parsed_u32(s@) == (if t.len() > 0 && all_digits(t) && digits_value(t) <= u32::MAX {
        Some(digits_value(t) as u32)
    } else {
        None
    }));
    if start >= n {
        return None;
    }
    let mut v: u64 = 0;
    let mut i: usize = start;
    while i < n
        invariant
            n == s@.len(),
            start <= i <= n,
            t =~= s@.subrange(start as int, n as int),
            parsed_u32(s@) == (if t.len() > 0 && all_digits(t) && digits_value(t) <= u32::MAX {
                Some(digits_value(t) as u32)
            } else {
                None
            }),
            all_digits(t.subrange(0, i - start)),
            v == digits_value(t.subrange(0, i - start)),
            v <= u32::MAX,
        decreases n - i,
    {
        let c = s.get_char(i);
        let ghost pre = t.subrange(0, i - start);
        let ghost next = t.subrange(0, i + 1 - start);
        assert(next.drop_last() =~= pre);
        assert(next.last() == c);
        if c < '0' || c > '9' {
            assert(s@[i as int] == c);
            assert(t[i - start] == s@[i as int]);
            assert(!all_digits(t));
            return None;
        }
        let d: u64 = (c as u32 - '0' as u32) as u64;
        v = v * 10 + d;
        assert(all_digits(next));
        assert(v == digits_value(next));
        if v > u32::MAX as u64 {
            proof {
                assert(all_digits(t) ==> digits_value(t) >= v) by {
                    if all_digits(t) {
                        lemma_digits_prefix(t, i + 1 - start);
                    }
                }
            }
            return None;
        }
        i = i + 1;
    }
    assert(t.subrange(0, n - start) =~= t);
    Some(v as u32)
}

/// Minutes since midnight of a valid "H:M" clock text: exactly one colon, each side
/// a number as `str::parse::<u32>` reads it, hours below 24 and minutes below 60.
pub open spec fn clock_minutes(s: Seq<char>) -> Option<u32> {
    let c = next_index(s, 0, ':');
    if c >= s.len() || next_index(s, c + 1, ':') < s.len() {
        None
    } else {
        match (parsed_u32(s.subrange(0, c)), parsed_u32(s.subrange(c + 1, s.len() as int))) {
            (Some(h), Some(m)) => if h < 24 && m < 60 { Some((h * 60 + m) as u32) } else { None },
            _ => None,
        }
    }
}

/// The start and end of a schedule window, in minutes since midnight, when the
/// window is enabled and both clock texts are valid.
pub open spec fn window_of(s: Schedule) -> Option<(u32, u32)> {
    if !s.enabled {
        None
    } else {
        match (clock_minutes(s.start@), clock_minutes(s.end@)) {
            (Some(a), Some(b)) => Some((a, b)),
            _ => None,
        }
    }
}

/// `now` (minutes since midnight) falls in the window of `s`.
pub open spec fn window_holds(s: Schedule, now: u32) -> bool {
    match window_of(s) {
        Some((a, b)) => a <= now && now < b,
        None => false,
    }
}

/// `now` falls in one of the windows of `ss`.
pub open spec fn in_schedule(ss: Seq<Schedule>, now: u32) -> bool {
    exists|k: int| 0 <= k < ss.len() && window_holds(#[trigger] ss[k], now)
}

/// The start of an enabled window whose start text is valid.
pub open spec fn start_of(s: Schedule) -> Option<u32> {
    if s.enabled { clock_minutes(s.start@) } else { None }
}

/// The earliest start after `now` among the windows of `ss`.
pub open spec fn earliest_start_after(ss: Seq<Schedule>, now: u32) -> Option<u32>
    decreases ss.len(),
{
    if ss.len() == 0 {
        None
    } else {
        let prev = earliest_start_after(ss.drop_last(), now);
        match start_of(ss.last()) {
            Some(a) => if a > now {
                match prev {
                    Some(p) => if a < p { Some(a) } else { Some(p) },
                    None => Some(a),
                }
            } else {
                prev
            },
            None => prev,
        }
    }
}

/// The character of the decimal digit `d`.
pub open spec fn digit_char(d: int) -> char {
    (('0' as int) + d) as char
}

/// "HH:MM" for `m` minutes since midnight.
pub open spec fn clock_text_of(m: u32) -> Seq<char> {
    let h = (m / 60) as int;
    let mm = (m % 60) as int;
    seq![digit_char(h / 10), digit_char(h % 10), ':', digit_char(mm / 10), digit_char(mm % 10)]
}

fn digit_text(d: u32) -> (r: &'static str)
    requires
        d < 10,
    ensures
        r@ == seq![digit_char(d as int)],
{
    proof {
        reveal_strlit("0123456789");
    }
    "0123456789".substring_char(d as usize, d as usize + 1)
}

/// `m` minutes since midnight written as "HH:MM".
pub fn clock_text(m: u32) -> (r: String)
    requires
        m < 1440,
    ensures
        r@ == clock_text_of(m),
{
    let h = m / 60;
    let mm = m % 60;
    let mut out = String::from_str(digit_text(h / 10));
    out.append(digit_text(h % 10));
    out.append(":");
    out.append(digit_text(mm / 10));
    out.append(digit_text(mm % 10));
    proof {
        reveal_strlit(":");
    }
    assert(out@ =~= clock_text_of(m));
    out
}

/// The minute of the day of local time `local_secs` (seconds since the epoch in the
/// local time zone).
pub open spec fn minute_of_day(local_secs: u64) -> u32 {
    ((local_secs % 86400) / 60) as u32
}

/// The minute of the day of local time `local_secs`.
pub fn minute_of_day_at(local_secs: u64) -> (r: u32)
    ensures
        r == minute_of_day(local_secs),
        r < 1440,
{
    ((local_secs % 86400) / 60) as u32
}

/// Decides the daily windows in which focus starts by itself.
pub struct Scheduler {
    schedules: Vec<Schedule>,
}

impl Scheduler {
    /// The configured windows.
    pub closed spec fn windows(&self) -> Seq<Schedule> {
        self.schedules@
    }

    pub fn new(schedules: Vec<Schedule>) -> (r: Self)
        ensures
            r.windows() == schedules@,
    {
        Scheduler { schedules }
    }

    pub fn update_schedules(&mut self, schedules: Vec<Schedule>)
        ensures
            final(self).windows() == schedules@,
    {
        self.schedules = schedules;
    }

    pub fn get_schedules(&self) -> (r: &Vec<Schedule>)
        ensures
            r@ == self.windows(),
    {
        &self.schedules
    }

    /// Minutes since midnight of a clock text such as "09:30".
    pub fn parse_time_static(time_str: &str) -> (r: Result<u32, AppError>)
        ensures
            r matches Ok(v) ==> clock_minutes(time_str@) == Some(v),
            r is Err <==> clock_minutes(time_str@) is None,
            r matches Err(e) ==> e matches AppError::ConfigError(_),
    {
        let n = char_len(time_str);
        proof {
            crate::text::lemma_next_index(time_str@, 0, ':');
        }
        let c = find_from(time_str, 0, ':');
        if c >= n {
            return Err(AppError::ConfigError(String::from_str("invalid time format")));
        }
        proof {
            crate::text::lemma_next_index(time_str@, c + 1, ':');
        }
        if find_from(time_str, c + 1, ':') < n {
            return Err(AppError::ConfigError(String::from_str("invalid time format")));
        }
        let hs = slice_text(time_str, 0, c);
        let ms = slice_text(time_str, c + 1, n);
        let h = match parse_u32(hs.as_str()) {
            Some(h) => h,
            None => {
                return Err(AppError::ConfigError(String::from_str("invalid hour")));
            },
        };
        let m = match parse_u32(ms.as_str()) {
            Some(m) => m,
            None => {
                return Err(AppError::ConfigError(String::from_str("invalid minute")));
            },
        };
        if h < 24 && m < 60 {
            Ok(h * 60 + m)
        } else {
            Err(AppError::ConfigError(String::from_str("invalid time")))
        }
    }

    fn window(s: &Schedule) -> (r: Option<(u32, u32)>)
        ensures
            r == window_of(*s),
    {
        if !s.enabled {
            return None;
        }
        match (Self::parse_time_static(s.start.as_str()), Self::parse_time_static(s.end.as_str())) {
            (Ok(a), Ok(b)) => Some((a, b)),
            _ => None,
        }
    }

    /// Whether `now` (minutes since midnight) falls in an enabled, valid window:
    /// at or after its start and before its end.
    pub fn is_in_schedule_at(schedules: &Vec<Schedule>, now: u32) -> (r: bool)
        ensures
            r == in_schedule(schedules@, now),
    {
        let mut i: usize = 0;
        while i < schedules.len()
            invariant
                i <= schedules.len(),
                forall|k: int| 0 <= k < i ==> !window_holds(#[trigger] schedules@[k], now),
            decreases schedules.len() - i,
        {
            match Self::window(&schedules[i]) {
                Some((a, b)) => {
                    if a <= now && now < b {
                        assert(window_holds(schedules@[i as int], now));
                        return true;
                    }
                },
                None => {},
            }
            i = i + 1;
        }
        false
    }

    /// Whether local time `local_secs` falls in a window.
    pub fn is_in_schedule_static(schedules: &Vec<Schedule>, local_secs: u64) -> (r: bool)
        ensures
            r == in_schedule(schedules@, minute_of_day(local_secs)),
    {
        Self::is_in_schedule_at(schedules, minute_of_day_at(local_secs))
    }

    /// Whether local time `local_secs` falls in one of this scheduler's windows.
    pub fn is_in_scheduled_time(&self, local_secs: u64) -> (r: bool)
        ensures
            r == in_schedule(self.windows(), minute_of_day(local_secs)),
    {
        Self::is_in_schedule_static(&self.schedules, local_secs)
    }

    /// The earliest start after `now` (minutes since midnight) of an enabled window.
    pub fn next_start_at(schedules: &Vec<Schedule>, now: u32) -> (r: Option<u32>)
        ensures
            r == earliest_start_after(schedules@, now),
    {
        let mut best: Option<u32> = None;
        let mut i: usize = 0;
        while i < schedules.len()
            invariant
                i <= schedules.len(),
                best == earliest_start_after(schedules@.subrange(0, i as int), now),
            decreases schedules.len() - i,
        {
            let ghost next = schedules@.subrange(0, i + 1);
            assert(next.drop_last() =~= schedules@.subrange(0, i as int));
            assert(next.last() == schedules@[i as int]);
            let s = &schedules[i];
            if s.enabled {
                match Self::parse_time_static(s.start.as_str()) {
                    Ok(a) => {
                        if a > now {
                            best = match best {
                                Some(p) => if a < p { Some(a) } else { Some(p) },
                                None => Some(a),
                            };
                        }
                    },
                    Err(_) => {},
                }
            }
            i = i + 1;
        }
        assert(schedules@.subrange(0, schedules@.len() as int) =~= schedules@);
        best
    }

    /// The end text of the first window that `now` (minutes since midnight) falls in.
    pub fn current_end_at(schedules: &Vec<Schedule>, now: u32) -> (r: Option<String>)
        ensures
            r is None <==> !in_schedule(schedules@, now),
            r matches Some(e) ==> exists|k: int| 0 <= k < schedules@.len() && window_holds(#[trigger] schedules@[k], now)
                && e@ == schedules@[k].end@
                && forall|j: int| 0 <= j < k ==> !window_holds(#[trigger] schedules@[j], now),
    {
        let mut i: usize = 0;
        while i < schedules.len()
            invariant
                i <= schedules.len(),
                forall|k: int| 0 <= k < i ==> !window_holds(#[trigger] schedules@[k], now),
            decreases schedules.len() - i,
        {
            match Self::window(&schedules[i]) {
                Some((a, b)) => {
                    if a <= now && now < b {
                        assert(window_holds(schedules@[i as int], now));
                        return Some(schedules[i].end.clone());
                    }
                },
                None => {},
            }
            i = i + 1;
        }
        None
    }

    /// The next window start after local time `local_secs`, as "HH:MM".
    pub fn get_next_scheduled_start(&self, local_secs: u64) -> (r: Option<String>)
        ensures
            same_start(r, earliest_start_after(self.windows(), minute_of_day(local_secs))),
    {
        let now = minute_of_day_at(local_secs);
        let best = Self::next_start_at(&self.schedules, now);
        proof {
            lemma_earliest_in_day(self.schedules@, now);
        }
        match best {
            Some(m) => Some(clock_text(m)),
            None => None,
        }
    }

    /// The end text of the first window that local time `local_secs` falls in.
    pub fn get_current_schedule_end(&self, local_secs: u64) -> (r: Option<String>)
        ensures
            r is None <==> !in_schedule(self.windows(), minute_of_day(local_secs)),
            r matches Some(e) ==> exists|k: int| 0 <= k < self.windows().len()
                && window_holds(#[trigger] self.windows()[k], minute_of_day(local_secs))
                && e@ == self.windows()[k].end@
                && forall|j: int| 0 <= j < k ==> !window_holds(#[trigger] self.windows()[j], minute_of_day(local_secs)),
    {
        let r = Self::current_end_at(&self.schedules, minute_of_day_at(local_secs));
        assert(self.windows() == self.schedules@);
        r
    }
}

/// `r` is the "HH:MM" text of the start `e`, or both are absent.
pub open spec fn same_start(r: Option<String>, e: Option<u32>) -> bool {
    match (r, e) {
        (Some(t), Some(m)) => t@ == clock_text_of(m),
        (None, None) => true,
        _ => false,
    }
}

proof fn lemma_earliest_in_day(ss: Seq<Schedule>, now: u32)
    ensures
        earliest_start_after(ss, now) matches Some(m) ==> m < 1440,
    decreases ss.len(),
{
    if ss.len() > 0 {
        lemma_earliest_in_day(ss.drop_last(), now);
    }
}

impl Default for Scheduler {
    fn default() -> (r: Self)
        ensures
            r.windows().len() == 0,
    {
        Self::new(Vec::new())
    }
}

} // verus!
