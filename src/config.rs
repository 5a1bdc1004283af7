use vstd::prelude::*;
use vstd::string::*;
use crate::errors::AppError;

verus! {

/// Pomodoro durations and the monthly emergency-override bookkeeping.
#[derive(Debug, Clone)]
pub struct PomodoroConfig {
    pub work_minutes: u32,
    pub break_minutes: u32,
    pub emergency_cancel_limit: u32,
    pub last_focus_duration: u32,
    pub emergency_used_count: u32,
    pub emergency_reset_month: String,
}

/// A daily time window ("HH:MM" to "HH:MM") in which focus starts by itself.
#[derive(Debug, Clone)]
pub struct Schedule {
    pub enabled: bool,
    pub start: String,
    pub end: String,
}

/// The user's configuration.
#[derive(Debug, Clone)]
pub struct Config {
    pub pomodoro: PomodoroConfig,
    pub blocked_apps: Vec<String>,
    pub blocked_sites: Vec<String>,
    pub schedules: Vec<Schedule>,
    pub mode: String,
    pub play_completion_sound: bool,
    pub custom_bg_path: Option<String>,
}

/// Value of `play_completion_sound` when the stored file lacks it.
pub fn default_play_completion_sound() -> (r: bool)
    ensures
        r,
{
    true
}

/// Value of `last_focus_duration` when the stored file lacks it.
pub fn default_last_focus_duration() -> (r: u32)
    ensures
        r == 25,
{
    25
}

/// `limit - used`, floored at zero.
pub open spec fn quota_left(limit: u32, used: u32) -> u32 {
    if used >= limit {
        0
    } else {
        (limit - used) as u32
    }
}

impl PomodoroConfig {
    /// Overrides left in `month`: the used count restarts from zero when the stored
    /// month differs from `month`, which is then stored.
    pub fn monthly_remaining_in(&mut self, month: String) -> (r: u32)
        ensures
            final(self).emergency_reset_month@ == month@,
            final(self).emergency_used_count == if old(self).emergency_reset_month@ == month@ {
                old(self).emergency_used_count
            } else {
                0
            },
            final(self).work_minutes == old(self).work_minutes,
            final(self).break_minutes == old(self).break_minutes,
            final(self).emergency_cancel_limit == old(self).emergency_cancel_limit,
            final(self).last_focus_duration == old(self).last_focus_duration,
            r == quota_left(final(self).emergency_cancel_limit, final(self).emergency_used_count),
    {
        if self.emergency_reset_month != month {
            self.emergency_used_count = 0;
            self.emergency_reset_month = month;
        }
        if self.emergency_used_count >= self.emergency_cancel_limit {
            0
        } else {
            self.emergency_cancel_limit - self.emergency_used_count
        }
    }

    /// The month in which local time `local_secs` falls, or the stored month when it
    /// cannot be told.
    pub fn month_or_stored(&self, local_secs: u64) -> (r: String)
        ensures
            r@ == calendar_month(local_secs as int) || r@ == self.emergency_reset_month@,
            local_secs <= LAST_MONTH_SECS ==> r@ == calendar_month(local_secs as int),
    {
        match month_at(local_secs) {
            Some(m) => m,
            None => self.emergency_reset_month.clone(),
        }
    }

    /// Overrides left in the month of local time `local_secs` (see `monthly_remaining_in`).
    pub fn get_monthly_emergency_remaining(&mut self, local_secs: u64) -> (r: u32)
        ensures
            final(self).emergency_reset_month@ == calendar_month(local_secs as int)
                || final(self).emergency_reset_month@ == old(self).emergency_reset_month@,
            local_secs <= LAST_MONTH_SECS ==> final(self).emergency_reset_month@ == calendar_month(local_secs as int),
            local_secs <= LAST_MONTH_SECS ==> final(self).emergency_used_count == if old(self).emergency_reset_month@
                == calendar_month(local_secs as int) {
                old(self).emergency_used_count
            } else {
                0
            },
            final(self).emergency_used_count == 0 || final(self).emergency_used_count == old(self).emergency_used_count,
            final(self).emergency_reset_month@ == old(self).emergency_reset_month@
                ==> final(self).emergency_used_count == old(self).emergency_used_count,
            final(self).work_minutes == old(self).work_minutes,
            final(self).break_minutes == old(self).break_minutes,
            final(self).emergency_cancel_limit == old(self).emergency_cancel_limit,
            final(self).last_focus_duration == old(self).last_focus_duration,
            r == quota_left(final(self).emergency_cancel_limit, final(self).emergency_used_count),
    {
        let month = self.month_or_stored(local_secs);
        self.monthly_remaining_in(month)
    }

    /// Records one emergency override used in `month`.
    pub fn record_emergency_use(&mut self, month: String)
        ensures
            final(self).emergency_reset_month@ == month@,
            final(self).emergency_used_count == if old(self).emergency_used_count == u32::MAX {
                u32::MAX
            } else {
                (old(self).emergency_used_count + 1) as u32
            },
            final(self).work_minutes == old(self).work_minutes,
            final(self).break_minutes == old(self).break_minutes,
            final(self).emergency_cancel_limit == old(self).emergency_cancel_limit,
            final(self).last_focus_duration == old(self).last_focus_duration,
    {
        if self.emergency_used_count < u32::MAX {
            self.emergency_used_count = self.emergency_used_count + 1;
        }
        self.emergency_reset_month = month;
    }
}

/// What chrono formats as "%Y-%m" for the instant `secs` seconds after the epoch.
pub uninterp spec fn calendar_month(secs: int) -> Seq<char>;

/// Last second of the year 9999, the end of the range in which a month is always told.
pub const LAST_MONTH_SECS: u64 = 253402300799;

/// Relies on chrono's `DateTime::from_timestamp`, which gives `None` only when the day
/// count leaves `i32` or the date range (years up to 262142), and `format("%Y-%m")`, which
/// always formats a date: the instant's calendar month, such as "2024-05", which depends
/// on the timestamp alone.
#[verifier::external_body]
fn month_of_timestamp(secs: i64) -> (r: Option<String>)
    ensures
        r matches Some(m) ==> m@ == calendar_month(secs as int),
        0 <= secs <= LAST_MONTH_SECS ==> r is Some,
{
    chrono::DateTime::from_timestamp(secs, 0).map(|t| t.format("%Y-%m").to_string())
}

/// The calendar month of local time `local_secs` (seconds since the epoch in the local
/// time zone), when chrono can represent it.
pub fn month_at(local_secs: u64) -> (r: Option<String>)
    ensures
        r matches Some(m) ==> m@ == calendar_month(local_secs as int),
        local_secs <= LAST_MONTH_SECS ==> r is Some,
{
    if local_secs > i64::MAX as u64 {
        None
    } else {
        month_of_timestamp(local_secs as i64)
    }
}

/// Relies on `dirs::home_dir`: the user's home directory, when the platform knows one.
/// It depends on the environment, so nothing is stated of it.
#[verifier::external_body]
fn home_dir_text() -> (r: Option<String>) {
    dirs::home_dir().map(|p| p.to_string_lossy().to_string())
}

/// `home` followed by `suffix`.
pub open spec fn joined(home: Seq<char>, suffix: Seq<char>) -> Seq<char> {
    home + suffix
}

impl Config {
    /// `suffix` appended to the home directory `home`.
    fn under_home(home: &str, suffix: &str) -> (r: String)
        ensures
            r@ == joined(home@, suffix@),
    {
        String::from_str(home).concat(suffix)
    }

    /// The application's data directory under the home directory `home`.
    pub fn config_dir_in(home: &str) -> (r: String)
        ensures
            r@ == joined(home@, "/Library/Application Support/pomodoro-focus"@),
    {
        Self::under_home(home, "/Library/Application Support/pomodoro-focus")
    }

    /// The configuration file under the home directory `home`.
    pub fn config_path_in(home: &str) -> (r: String)
        ensures
            r@ == joined(home@, "/Library/Application Support/pomodoro-focus/config.json"@),
    {
        Self::under_home(home, "/Library/Application Support/pomodoro-focus/config.json")
    }

    pub(crate) fn home_child(suffix: &str) -> (r: Result<String, AppError>)
        ensures
            r matches Ok(p) ==> exists|h: Seq<char>| p@ == joined(h, suffix@),
            r matches Err(e) ==> e matches AppError::ConfigError(_),
    {
        match home_dir_text() {
            Some(h) => Ok(Self::under_home(h.as_str(), suffix)),
            None => Err(AppError::ConfigError(String::from_str("cannot determine the home directory"))),
        }
    }

    /// The application's data directory under the user's home.
    pub fn config_dir() -> (r: Result<String, AppError>)
        ensures
            r matches Ok(p) ==> exists|h: Seq<char>|
                p@ == joined(h, "/Library/Application Support/pomodoro-focus"@),
            r matches Err(e) ==> e matches AppError::ConfigError(_),
    {
        Self::home_child("/Library/Application Support/pomodoro-focus")
    }

    /// Where the configuration file lives.
    pub fn config_path() -> (r: Result<String, AppError>)
        ensures
            r matches Ok(p) ==> exists|h: Seq<char>|
                p@ == joined(h, "/Library/Application Support/pomodoro-focus/config.json"@),
            r matches Err(e) ==> e matches AppError::ConfigError(_),
    {
        Self::home_child("/Library/Application Support/pomodoro-focus/config.json")
    }
}

impl Default for Config {
    /// The configuration written on first start: 25/5 minute sessions, two overrides a
    /// month, a starter blocklist, three daily windows (the evening one disabled), manual mode.
    fn default() -> (r: Self)
        ensures
            r.pomodoro.work_minutes == 25,
            r.pomodoro.break_minutes == 5,
            r.pomodoro.emergency_cancel_limit == 2,
            r.pomodoro.last_focus_duration == 25,
            r.pomodoro.emergency_used_count == 0,
            r.pomodoro.emergency_reset_month@.len() == 0,
            r.blocked_apps@.len() == 2,
            r.blocked_apps@[0]@ == "bilibili"@,
            r.blocked_apps@[1]@ == "QQ"@,
            r.blocked_sites@.len() == 19,
            r.blocked_sites@[0]@ == "bilibili.com"@,
            r.schedules@.len() == 3,
            r.schedules@[0].enabled && r.schedules@[0].start@ == "09:00"@ && r.schedules@[0].end@ == "12:00"@,
            r.schedules@[1].enabled && r.schedules@[1].start@ == "14:00"@ && r.schedules@[1].end@ == "17:00"@,
            !r.schedules@[2].enabled && r.schedules@[2].start@ == "19:00"@ && r.schedules@[2].end@ == "22:00"@,
            r.mode@ == "manual"@,
            r.play_completion_sound,
            r.custom_bg_path.is_none(),
    {
        let pomodoro = PomodoroConfig {
            work_minutes: 25,
            break_minutes: 5,
            emergency_cancel_limit: 2,
            last_focus_duration: default_last_focus_duration(),
            emergency_used_count: 0,
            emergency_reset_month: String::new(),
        };
        let blocked_apps = vec![String::from_str("bilibili"), String::from_str("QQ")];
        let blocked_sites = vec![
            String::from_str("bilibili.com"),
            String::from_str("www.bilibili.com"),
            String::from_str("m.bilibili.com"),
            String::from_str("douyin.com"),
            String::from_str("www.douyin.com"),
            String::from_str("pornhub.com"),
            String::from_str("www.pornhub.com"),
            String::from_str("xvideos.com"),
            String::from_str("www.xvideos.com"),
            String::from_str("xhamster.com"),
            String::from_str("www.xhamster.com"),
            String::from_str("xnxx.com"),
            String::from_str("www.xnxx.com"),
            String::from_str("91porn.com"),
            String::from_str("www.91porn.com"),
            String::from_str("javdb.com"),
            String::from_str("www.javdb.com"),
            String::from_str("missav.com"),
            String::from_str("www.missav.com"),
        ];
        let schedules = vec![
            Schedule { enabled: true, start: String::from_str("09:00"), end: String::from_str("12:00") },
            Schedule { enabled: true, start: String::from_str("14:00"), end: String::from_str("17:00") },
            Schedule { enabled: false, start: String::from_str("19:00"), end: String::from_str("22:00") },
        ];
        Config {
            pomodoro,
            blocked_apps,
            blocked_sites,
            schedules,
            mode: String::from_str("manual"),
            play_completion_sound: default_play_completion_sound(),
            custom_bg_path: None,
        }
    }
}

} // verus!
