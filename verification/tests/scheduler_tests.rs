use chrono::{Datelike, Timelike};
use simple_sftp::scheduler::{Day, LocalMoment, Scheduler};
use simple_sftp::settings::{ScheduleConfig, ScheduleMode, TimeOfDay, WeekDays};

fn make_config(
    mode: ScheduleMode,
    start_h: u8,
    start_m: u8,
    end_h: u8,
    end_m: u8,
    days: Option<WeekDays>,
) -> ScheduleConfig {
    ScheduleConfig {
        mode,
        start_time: TimeOfDay { hour: start_h, minute: start_m },
        end_time: TimeOfDay { hour: end_h, minute: end_m },
        days: days.unwrap_or(WeekDays {
            mon: true,
            tue: true,
            wed: true,
            thu: true,
            fri: false,
            sat: false,
            sun: false,
        }),
    }
}

#[test]
fn test_none_mode() {
    let config = make_config(ScheduleMode::Off, 0, 0, 0, 0, None);
    let now = LocalMoment::with_ymd_and_hms(2023, 10, 27, 12, 0, 0).unwrap(); // Fri
    assert!(Scheduler::is_allowed(&config, now));
}

#[test]
fn test_daily_normal_range() {
    let config = make_config(ScheduleMode::Daily, 9, 0, 17, 0, None);

    let t1 = LocalMoment::with_ymd_and_hms(2023, 10, 27, 8, 59, 0).unwrap();
    assert!(!Scheduler::is_allowed(&config, t1));

    let t2 = LocalMoment::with_ymd_and_hms(2023, 10, 27, 9, 0, 0).unwrap();
    assert!(Scheduler::is_allowed(&config, t2));

    let t3 = LocalMoment::with_ymd_and_hms(2023, 10, 27, 16, 59, 0).unwrap();
    assert!(Scheduler::is_allowed(&config, t3));

    let t4 = LocalMoment::with_ymd_and_hms(2023, 10, 27, 17, 0, 0).unwrap();
    assert!(!Scheduler::is_allowed(&config, t4));
}

#[test]
fn test_daily_overnight_range() {
    let config = make_config(ScheduleMode::Daily, 22, 0, 5, 0, None);

    let t1 = LocalMoment::with_ymd_and_hms(2023, 10, 27, 21, 59, 0).unwrap();
    assert!(!Scheduler::is_allowed(&config, t1));

    let t2 = LocalMoment::with_ymd_and_hms(2023, 10, 27, 23, 0, 0).unwrap();
    assert!(Scheduler::is_allowed(&config, t2));

    let t3 = LocalMoment::with_ymd_and_hms(2023, 10, 27, 2, 0, 0).unwrap();
    assert!(Scheduler::is_allowed(&config, t3));

    let t4 = LocalMoment::with_ymd_and_hms(2023, 10, 27, 5, 0, 0).unwrap();
    assert!(!Scheduler::is_allowed(&config, t4));
}

#[test]
fn test_weekly_logic() {
    let config = make_config(ScheduleMode::Weekly, 23, 0, 2, 0, None);

    let thu_night = LocalMoment::with_ymd_and_hms(2023, 10, 26, 23, 30, 0).unwrap();
    assert!(Scheduler::is_allowed(&config, thu_night));

    let fri_morning = LocalMoment::with_ymd_and_hms(2023, 10, 27, 1, 30, 0).unwrap();
    assert!(Scheduler::is_allowed(&config, fri_morning));

    let fri_night = LocalMoment::with_ymd_and_hms(2023, 10, 27, 23, 30, 0).unwrap();
    assert!(!Scheduler::is_allowed(&config, fri_night));

    let sat_morning = LocalMoment::with_ymd_and_hms(2023, 10, 28, 1, 30, 0).unwrap();
    assert!(!Scheduler::is_allowed(&config, sat_morning));
}

#[test]
fn calendar_dates_get_their_weekday() {
    let thursday = LocalMoment::with_ymd_and_hms(2023, 10, 26, 23, 30, 0).unwrap();
    assert_eq!(thursday.weekday(), Day::Thu);
    assert_eq!(thursday.hour(), 23);
    assert_eq!(thursday.minute(), 30);
    assert_eq!(LocalMoment::with_ymd_and_hms(2023, 10, 27, 0, 0, 0).unwrap().weekday(), Day::Fri);
    assert_eq!(LocalMoment::with_ymd_and_hms(2023, 10, 28, 0, 0, 0).unwrap().weekday(), Day::Sat);
    assert_eq!(LocalMoment::with_ymd_and_hms(2023, 10, 29, 0, 0, 0).unwrap().weekday(), Day::Sun);
    assert_eq!(LocalMoment::with_ymd_and_hms(2023, 10, 30, 0, 0, 0).unwrap().weekday(), Day::Mon);
    assert_eq!(LocalMoment::with_ymd_and_hms(2024, 2, 29, 0, 0, 0).unwrap().weekday(), Day::Thu);
    assert_eq!(LocalMoment::with_ymd_and_hms(1970, 1, 1, 0, 0, 0).unwrap().weekday(), Day::Thu);
}

#[test]
fn impossible_dates_and_times_give_no_moment() {
    assert!(LocalMoment::with_ymd_and_hms(2023, 2, 29, 12, 0, 0).is_none());
    assert!(LocalMoment::with_ymd_and_hms(2023, 13, 1, 12, 0, 0).is_none());
    assert!(LocalMoment::with_ymd_and_hms(2023, 4, 31, 12, 0, 0).is_none());
    assert!(LocalMoment::with_ymd_and_hms(2023, 10, 27, 24, 0, 0).is_none());
    assert!(LocalMoment::with_ymd_and_hms(2023, 10, 27, 12, 60, 0).is_none());
    assert!(LocalMoment::with_ymd_and_hms(2023, 10, 27, 12, 0, 60).is_none());
    assert!(LocalMoment::new(Day::Mon, 24, 0).is_none());
    assert!(LocalMoment::new(Day::Mon, 0, 60).is_none());
    let moment = LocalMoment::new(Day::Wed, 23, 59).unwrap();
    assert_eq!((moment.weekday(), moment.hour(), moment.minute()), (Day::Wed, 23, 59));
}

#[test]
fn days_follow_each_other() {
    assert_eq!(Day::Mon.yesterday(), Day::Sun);
    assert_eq!(Day::Tue.yesterday(), Day::Mon);
    assert_eq!(Day::Sun.yesterday(), Day::Sat);
    assert_eq!(Day::from_monday(0), Some(Day::Mon));
    assert_eq!(Day::from_monday(6), Some(Day::Sun));
    assert_eq!(Day::from_monday(7), None);
}

#[test]
fn equal_ends_mean_the_whole_day() {
    let daily = make_config(ScheduleMode::Daily, 8, 30, 8, 30, None);
    for hour in [0u32, 8, 12, 23] {
        assert!(Scheduler::is_allowed(&daily, LocalMoment::new(Day::Sat, hour, 30).unwrap()));
    }
    let weekly = make_config(ScheduleMode::Weekly, 8, 30, 8, 30, None);
    assert!(Scheduler::is_allowed(&weekly, LocalMoment::new(Day::Mon, 3, 0).unwrap()));
    assert!(!Scheduler::is_allowed(&weekly, LocalMoment::new(Day::Sat, 3, 0).unwrap()));
}

#[test]
fn weekly_day_window_needs_the_day_and_the_time() {
    let config = make_config(ScheduleMode::Weekly, 9, 0, 17, 0, None);
    assert!(Scheduler::is_allowed(&config, LocalMoment::new(Day::Mon, 9, 0).unwrap()));
    assert!(!Scheduler::is_allowed(&config, LocalMoment::new(Day::Mon, 17, 0).unwrap()));
    assert!(!Scheduler::is_allowed(&config, LocalMoment::new(Day::Fri, 12, 0).unwrap()));
}

#[test]
fn monday_morning_belongs_to_sunday_night() {
    let sunday_only = WeekDays {
        mon: false,
        tue: false,
        wed: false,
        thu: false,
        fri: false,
        sat: false,
        sun: true,
    };
    let config = make_config(ScheduleMode::Weekly, 23, 0, 2, 0, Some(sunday_only));
    assert!(Scheduler::is_allowed(&config, LocalMoment::new(Day::Mon, 1, 0).unwrap()));
    assert!(!Scheduler::is_allowed(&config, LocalMoment::new(Day::Mon, 23, 30).unwrap()));
    assert!(Scheduler::is_allowed(&config, LocalMoment::new(Day::Sun, 23, 30).unwrap()));
    assert!(!Scheduler::is_allowed(&config, LocalMoment::new(Day::Sun, 1, 0).unwrap()));
    assert!(!Scheduler::is_allowed(&config, LocalMoment::new(Day::Mon, 2, 0).unwrap()));
}

#[test]
fn a_clock_reading_becomes_a_moment() {
    let now = chrono::Local::now();
    let day = Day::from_monday(now.weekday().num_days_from_monday()).unwrap();
    let moment = LocalMoment::new(day, now.hour(), now.minute()).unwrap();
    assert_eq!(moment.weekday(), day);
    assert_eq!(moment.hour(), now.hour());
    assert_eq!(moment.minute(), now.minute());
}
