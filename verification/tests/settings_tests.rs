use simple_sftp::settings::{
    default_download_path, AppConfig, DailyStat, ScheduleConfig, ScheduleMode, SftpConfig,
    TimeOfDay,
};

fn stat(date: &str, bytes: u64, seconds: u64) -> DailyStat {
    DailyStat { date: date.to_string(), bytes_downloaded: bytes, seconds_active: seconds }
}

fn with_stats(stats: Vec<DailyStat>) -> AppConfig {
    let mut config = AppConfig::with_download_dir(None);
    config.download_stats = stats;
    config
}

#[test]
fn defaults() {
    let sftp = SftpConfig::default();
    assert_eq!(sftp.host, "localhost");
    assert_eq!(sftp.port, 22);
    assert_eq!(sftp.username, "");
    assert_eq!(sftp.password, None);
    assert_eq!(sftp.private_key_path, None);
    let schedule = ScheduleConfig::default();
    assert_eq!(schedule.mode, ScheduleMode::Off);
    assert_eq!(schedule.start_time, TimeOfDay { hour: 0, minute: 0 });
    assert_eq!(schedule.end_time, TimeOfDay { hour: 6, minute: 0 });
    assert!(!schedule.days.mon && !schedule.days.sun);
    let config = AppConfig::with_download_dir(None);
    assert_eq!(config.schedule, schedule);
    let days = config.schedule.days;
    assert!(!(days.mon || days.tue || days.wed || days.thu || days.fri || days.sat || days.sun));
    assert_eq!(config.sftp_config, sftp);
    assert_eq!(config.download_threshold, 0);
    assert_eq!(config.local_download_path, ".");
    assert_eq!(config.last_remote_path, ".");
    assert!(!config.auto_connect);
    assert_eq!(config.max_download_speed, 0);
    assert!(config.download_stats.is_empty());
    assert_eq!(sftp.clone(), sftp);
}

#[test]
fn downloads_go_to_the_users_directory_or_stay_here() {
    assert_eq!(default_download_path(Some("/home/me/Downloads".to_string())), "/home/me/Downloads");
    assert_eq!(default_download_path(None), ".");
    let found = AppConfig::with_download_dir(Some("/home/me/Downloads".to_string()));
    assert_eq!(found.local_download_path, "/home/me/Downloads");
    let mut here = AppConfig::with_download_dir(None);
    assert_eq!(here.local_download_path, ".");
    here.local_download_path = "/home/me/Downloads".to_string();
    assert_eq!(here, found);
}

#[test]
fn average_speed_is_bytes_over_seconds() {
    let config = with_stats(vec![stat("2024-01-01", 1000, 10), stat("2024-01-02", 3000, 30)]);
    assert_eq!(config.get_average_speed(7), 100);
    assert_eq!(config.get_average_speed(1), 100);
    assert_eq!(config.get_weekly_average(), 100);
    assert_eq!(config.get_monthly_average(), 100);
    let uneven = with_stats(vec![stat("a", 10, 3)]);
    assert_eq!(uneven.get_average_speed(7), 3);
}

#[test]
fn average_speed_is_zero_without_seconds() {
    assert_eq!(with_stats(Vec::new()).get_average_speed(7), 0);
    assert_eq!(with_stats(vec![stat("a", 5000, 0)]).get_average_speed(7), 0);
    assert_eq!(with_stats(vec![stat("a", 5, 10)]).get_average_speed(7), 0);
    assert_eq!(with_stats(vec![stat("a", 5, 10)]).get_average_speed(0), 0);
}

#[test]
fn averages_look_at_the_last_days_only() {
    let mut stats = Vec::new();
    for day in 0..40u64 {
        stats.push(stat(&format!("day-{}", day), if day < 10 { 1_000_000 } else { 100 }, 1));
    }
    let config = with_stats(stats);
    assert_eq!(config.get_weekly_average(), 100);
    assert_eq!(config.get_monthly_average(), 100);
    assert_eq!(config.get_average_speed(31), (1_000_000 + 30 * 100) / 31);
    assert_eq!(config.get_average_speed(1000), (10 * 1_000_000 + 30 * 100) / 40);
}

#[test]
fn averages_do_not_overflow_on_large_counts() {
    let config = with_stats(vec![stat("a", u64::MAX, u64::MAX), stat("b", u64::MAX, u64::MAX)]);
    assert_eq!(config.get_average_speed(7), 1);
    let big = with_stats(vec![stat("a", u64::MAX, 1), stat("b", u64::MAX, 1)]);
    assert_eq!(big.get_average_speed(7), u64::MAX);
}

#[test]
fn counting_for_a_day_adds_to_its_entry() {
    let mut config = with_stats(Vec::new());
    config.add_daily_stat("2024-01-01".to_string(), 100, 2);
    assert_eq!(config.download_stats, vec![stat("2024-01-01", 100, 2)]);
    config.add_daily_stat("2024-01-01".to_string(), 50, 1);
    assert_eq!(config.download_stats, vec![stat("2024-01-01", 150, 3)]);
    config.add_daily_stat("2024-01-02".to_string(), 7, 7);
    assert_eq!(config.download_stats, vec![stat("2024-01-01", 150, 3), stat("2024-01-02", 7, 7)]);
    // Only the last entry counts as the day's own.
    config.add_daily_stat("2024-01-01".to_string(), 1, 1);
    assert_eq!(config.download_stats.len(), 3);
    assert_eq!(config.download_stats[2], stat("2024-01-01", 1, 1));
    assert_eq!(config.get_today_stat("2024-01-01".to_string()), 2);
    assert_eq!(config.get_today_stat("2024-01-05".to_string()), 3);
    assert_eq!(config.download_stats[3], stat("2024-01-05", 0, 0));
}

#[test]
fn counting_for_today_uses_the_calendar_date() {
    let today = chrono::Local::now().format("%Y-%m-%d").to_string();
    let mut config = with_stats(vec![stat("1999-12-31", 1, 1)]);
    config.add_daily_stat(today.clone(), 10, 1);
    config.add_daily_stat(today.clone(), 5, 2);
    assert_eq!(config.download_stats, vec![stat("1999-12-31", 1, 1), stat(&today, 15, 3)]);
    let index = config.get_today_stat(today);
    assert_eq!(index, 1);
    assert_eq!(config.download_stats.len(), 2);
}

#[test]
fn counting_touches_nothing_but_the_statistics() {
    let mut config = AppConfig::with_download_dir(None);
    config.sftp_config.host = "files.example".to_string();
    config.download_threshold = 40;
    config.local_download_path = "/downloads".to_string();
    config.schedule.mode = ScheduleMode::Weekly;
    config.schedule.days.fri = true;
    config.last_remote_path = "/srv".to_string();
    config.auto_connect = true;
    config.max_download_speed = 64;
    let before = config.clone();
    config.add_daily_stat("2024-03-01".to_string(), 10, 1);
    config.get_today_stat("2024-03-01".to_string());
    assert_eq!(config.download_stats.len(), 1);
    config.download_stats.clear();
    assert_eq!(config, before);
}

#[test]
fn days_toggle_by_index() {
    let mut days = ScheduleConfig::default().days;
    days.toggle(0);
    days.toggle(6);
    assert!(days.mon && days.sun && !days.tue && !days.sat);
    days.toggle(0);
    assert!(!days.mon);
    for index in 1..=5 {
        days.toggle(index);
    }
    assert!(days.tue && days.wed && days.thu && days.fri && days.sat);
    let before = days;
    days.toggle(7);
    days.toggle(255);
    assert_eq!(days, before);
}

#[test]
fn clock_steps_wrap() {
    let time = TimeOfDay { hour: 23, minute: 55 };
    assert_eq!(time.stepped(1, 0), TimeOfDay { hour: 0, minute: 55 });
    assert_eq!(time.stepped(23, 0), TimeOfDay { hour: 22, minute: 55 });
    assert_eq!(time.stepped(0, 5), TimeOfDay { hour: 23, minute: 0 });
    assert_eq!(time.stepped(0, 55), TimeOfDay { hour: 23, minute: 50 });
    assert_eq!(TimeOfDay { hour: 0, minute: 0 }.stepped(23, 55), TimeOfDay { hour: 23, minute: 55 });
}

#[test]
fn a_copied_config_is_equal() {
    let mut config = with_stats(vec![stat("2024-01-01", 1, 2)]);
    config.sftp_config.password = Some("pw".to_string());
    config.max_download_speed = 64;
    assert_eq!(config.clone(), config);
}
