//! The schedule evaluator: given the schedule and the local time, is
//! downloading permitted now?

use crate::settings::{ScheduleConfig, ScheduleMode, WeekDays};
use chrono::Datelike;
use vstd::prelude::*;

verus! {

/// A day of the week.
#[derive(Debug, Clone, Copy, PartialEq, Eq, Structural)]
pub enum Day {
    Mon,
    Tue,
    Wed,
    Thu,
    Fri,
    Sat,
    Sun,
}

impl Day {
    /// The day before.
    pub open spec fn previous(self) -> Day {
        match self {
            Day::Mon => Day::Sun,
            Day::Tue => Day::Mon,
            Day::Wed => Day::Tue,
            Day::Thu => Day::Wed,
            Day::Fri => Day::Thu,
            Day::Sat => Day::Fri,
            Day::Sun => Day::Sat,
        }
    }

    /// The day that is so many days after a Monday.
    pub open spec fn after_monday(days: u32) -> Day {
        if days == 0 {
            Day::Mon
        } else if days == 1 {
            Day::Tue
        } else if days == 2 {
            Day::Wed
        } else if days == 3 {
            Day::Thu
        } else if days == 4 {
            Day::Fri
        } else if days == 5 {
            Day::Sat
        } else {
            Day::Sun
        }
    }

    /// The day before.
    pub fn yesterday(self) -> (day: Day)
        ensures
            day == self.previous(),
    {
        match self {
            Day::Mon => Day::Sun,
            Day::Tue => Day::Mon,
            Day::Wed => Day::Tue,
            Day::Thu => Day::Wed,
            Day::Fri => Day::Thu,
            Day::Sat => Day::Fri,
            Day::Sun => Day::Sat,
        }
    }

    fn nth(days: u32) -> (day: Day)
        requires
            days < 7,
        ensures
            day == Day::after_monday(days),
    {
        if days == 0 {
            Day::Mon
        } else if days == 1 {
            Day::Tue
        } else if days == 2 {
            Day::Wed
        } else if days == 3 {
            Day::Thu
        } else if days == 4 {
            Day::Fri
        } else if days == 5 {
            Day::Sat
        } else {
            Day::Sun
        }
    }

    /// The day that is `days` days after a Monday, for `days` below 7.
    pub fn from_monday(days: u32) -> (day: Option<Day>)
        ensures
            day == (if days < 7 {
                Some(Day::after_monday(days))
            } else {
                None
            }),
    {
        if days < 7 {
            Some(Day::nth(days))
        } else {
            None
        }
    }
}

/// What the evaluator reads of a moment: the day of the week and the time of
/// day on the local clock.
pub struct Reading {
    pub weekday: Day,
    pub hour: u32,
    pub minute: u32,
}

impl Reading {
    /// Minutes since midnight.
    pub open spec fn minutes(self) -> int {
        self.hour * 60 + self.minute
    }
}

/// A moment of local time, as far as the schedule looks at it. The hour is
/// below 24 and the minute below 60.
#[derive(Debug, Clone, Copy, PartialEq)]
pub struct LocalMoment {
    weekday: Day,
    hour: u32,
    minute: u32,
}

impl View for LocalMoment {
    type V = Reading;

    closed spec fn view(&self) -> Reading {
        Reading { weekday: self.weekday, hour: self.hour, minute: self.minute }
    }
}

/// The day of the week of a calendar date, counted in days after Monday, or
/// `None` where the calendar has no such date.
pub uninterp spec fn weekday_of_date(year: i32, month: u32, day: u32) -> Option<u32>;

/// Asks chrono for the weekday of a date: `NaiveDate::from_ymd_opt`, which
/// refuses a date that does not exist, then `weekday` and
/// `num_days_from_monday`, which counts from 0 for Monday to 6 for Sunday.
#[verifier::external_body]
fn weekday_number(year: i32, month: u32, day: u32) -> (number: Option<u32>)
    ensures
        number == weekday_of_date(year, month, day),
        number matches Some(days) ==> days < 7,
{
    match chrono::NaiveDate::from_ymd_opt(year, month, day) {
        Some(date) => Some(date.weekday().num_days_from_monday()),
        None => None,
    }
}

impl LocalMoment {
    #[verifier::type_invariant]
    spec fn inv(self) -> bool {
        self.hour < 24 && self.minute < 60
    }

    /// The moment with this weekday, hour and minute, where the hour is below
    /// 24 and the minute below 60.
    pub fn new(weekday: Day, hour: u32, minute: u32) -> (moment: Option<LocalMoment>)
        ensures
            moment is Some <==> hour < 24 && minute < 60,
            moment matches Some(m) ==> m@ == (Reading { weekday, hour, minute }),
    {
        if hour < 24 && minute < 60 {
            Some(LocalMoment { weekday, hour, minute })
        } else {
            None
        }
    }

    /// The moment of a calendar date and a time of day. There is none where
    /// the calendar has no such date, the hour is not below 24, or the minute
    /// or the second is not below 60.
    pub fn with_ymd_and_hms(
        year: i32,
        month: u32,
        day: u32,
        hour: u32,
        min: u32,
        sec: u32,
    ) -> (moment: Option<LocalMoment>)
        ensures
            moment is Some <==> weekday_of_date(year, month, day) is Some && hour < 24 && min < 60
                && sec < 60,
            moment matches Some(m) ==> m@ == (Reading {
                weekday: Day::after_monday(weekday_of_date(year, month, day)->0),
                hour,
                minute: min,
            }),
    {
        if hour >= 24 || min >= 60 || sec >= 60 {
            return None;
        }
        match weekday_number(year, month, day) {
            Some(days) => Some(LocalMoment { weekday: Day::nth(days), hour, minute: min }),
            None => None,
        }
    }

    pub fn weekday(&self) -> (day: Day)
        ensures
            day == self@.weekday,
    {
        self.weekday
    }

    pub fn hour(&self) -> (hour: u32)
        ensures
            hour == self@.hour,
            hour < 24,
    {
        proof {
            use_type_invariant(self);
        }
        self.hour
    }

    pub fn minute(&self) -> (minute: u32)
        ensures
            minute == self@.minute,
            minute < 60,
    {
        proof {
            use_type_invariant(self);
        }
        self.minute
    }
}

/// Whether the minute `current` of the day lies in the window from `start`
/// to `end`. Equal ends mean the whole day; a start after the end means a
/// window over midnight.
pub open spec fn in_window(start: int, end: int, current: int) -> bool {
    if start == end {
        true
    } else if start < end {
        start <= current < end
    } else {
        current >= start || current < end
    }
}

/// Whether the weekly schedule is open on the day.
pub open spec fn day_enabled(days: WeekDays, day: Day) -> bool {
    match day {
        Day::Mon => days.mon,
        Day::Tue => days.tue,
        Day::Wed => days.wed,
        Day::Thu => days.thu,
        Day::Fri => days.fri,
        Day::Sat => days.sat,
        Day::Sun => days.sun,
    }
}

/// The day whose permission counts at a moment inside the window: the day
/// itself, but on the morning side of a window over midnight the day before.
pub open spec fn owning_day(start: int, end: int, at: Reading) -> Day {
    if start > end && at.minutes() < start {
        at.weekday.previous()
    } else {
        at.weekday
    }
}

/// Whether downloading is permitted at a moment: always without a schedule;
/// with a daily one inside the window; with a weekly one inside the window
/// and on a day that is enabled, where the morning side of a window over
/// midnight belongs to the day before.
pub open spec fn allowed(config: ScheduleConfig, at: Reading) -> bool {
    let start = config.start_time.minutes();
    let end = config.end_time.minutes();
    match config.mode {
        ScheduleMode::Off => true,
        ScheduleMode::Daily => in_window(start, end, at.minutes()),
        ScheduleMode::Weekly => in_window(start, end, at.minutes()) && day_enabled(
            config.days,
            owning_day(start, end, at),
        ),
    }
}

/// The schedule evaluator.
pub struct Scheduler;

impl Scheduler {
    /// Tells whether downloading is permitted at the moment `now`.
    pub fn is_allowed(config: &ScheduleConfig, now: LocalMoment) -> (permitted: bool)
        ensures
            permitted == allowed(*config, now@),
    {
        match config.mode {
            ScheduleMode::Off => true,
            ScheduleMode::Daily => Self::check_time(config, now),
            ScheduleMode::Weekly => Self::check_weekly(config, now),
        }
    }

    fn check_time(config: &ScheduleConfig, now: LocalMoment) -> (inside: bool)
        ensures
            inside == in_window(
                config.start_time.minutes(),
                config.end_time.minutes(),
                now@.minutes(),
            ),
    {
        let current_minutes = now.hour() * 60 + now.minute();
        let start_minutes = config.start_time.hour as u32 * 60 + config.start_time.minute as u32;
        let end_minutes = config.end_time.hour as u32 * 60 + config.end_time.minute as u32;
        if start_minutes == end_minutes {
            return true;
        }
        if start_minutes < end_minutes {
            current_minutes >= start_minutes && current_minutes < end_minutes
        } else {
            current_minutes >= start_minutes || current_minutes < end_minutes
        }
    }

    fn check_weekly(config: &ScheduleConfig, now: LocalMoment) -> (permitted: bool)
        ensures
            permitted == (in_window(
                config.start_time.minutes(),
                config.end_time.minutes(),
                now@.minutes(),
            ) && day_enabled(
                config.days,
                owning_day(config.start_time.minutes(), config.end_time.minutes(), now@),
            )),
    {
        let current_minutes = now.hour() * 60 + now.minute();
        let start_minutes = config.start_time.hour as u32 * 60 + config.start_time.minute as u32;
        let end_minutes = config.end_time.hour as u32 * 60 + config.end_time.minute as u32;
        if start_minutes == end_minutes {
            return Self::check_day_enabled(&config.days, now.weekday());
        }
        if start_minutes < end_minutes {
            if current_minutes >= start_minutes && current_minutes < end_minutes {
                Self::check_day_enabled(&config.days, now.weekday())
            } else {
                false
            }
        } else {
            if current_minutes >= start_minutes {
                Self::check_day_enabled(&config.days, now.weekday())
            } else if current_minutes < end_minutes {
                Self::check_day_enabled(&config.days, now.weekday().yesterday())
            } else {
                false
            }
        }
    }

    fn check_day_enabled(days: &WeekDays, weekday: Day) -> (enabled: bool)
        ensures
            enabled == day_enabled(*days, weekday),
    {
        match weekday {
            Day::Mon => days.mon,
            Day::Tue => days.tue,
            Day::Wed => days.wed,
            Day::Thu => days.thu,
            Day::Fri => days.fri,
            Day::Sat => days.sat,
            Day::Sun => days.sun,
        }
    }
}

/// Without a schedule downloading is always permitted, and with equal ends a
/// daily schedule is open all day.
pub proof fn lemma_always_open(config: ScheduleConfig, at: Reading)
    ensures
        config.mode == ScheduleMode::Off ==> allowed(config, at),
        config.mode == ScheduleMode::Daily && config.start_time.minutes()
            == config.end_time.minutes() ==> allowed(config, at),
{
}

/// A window over midnight stays open into the next morning on the strength of
/// the evening's day: on the morning side the weekly schedule asks the day
/// before, on the evening side the day itself.
pub proof fn lemma_overnight_owner(config: ScheduleConfig, at: Reading)
    requires
        config.mode == ScheduleMode::Weekly,
        config.start_time.minutes() > config.end_time.minutes(),
    ensures
        at.minutes() >= config.start_time.minutes() ==> allowed(config, at) == day_enabled(
            config.days,
            at.weekday,
        ),
        at.minutes() < config.end_time.minutes() ==> allowed(config, at) == day_enabled(
            config.days,
            at.weekday.previous(),
        ),
        config.end_time.minutes() <= at.minutes() < config.start_time.minutes() ==> !allowed(
            config,
            at,
        ),
{
}

} // verus!
