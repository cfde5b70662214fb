//! The configuration document: connection settings, the download schedule,
//! the speed limit and the daily transfer statistics.

use vstd::prelude::*;

verus! {

/// How to reach the SFTP server.
#[derive(Debug, PartialEq)]
pub struct SftpConfig {
    pub host: String,
    pub port: u16,
    pub username: String,
    pub password: Option<String>,
    pub private_key_path: Option<String>,
}

fn clone_optional_text(text: &Option<String>) -> (copy: Option<String>)
    ensures
        copy == *text,
{
    match text {
        Some(inner) => Some(inner.clone()),
        None => None,
    }
}

impl Clone for SftpConfig {
    fn clone(&self) -> (copy: Self)
        ensures
            copy == *self,
    {
        SftpConfig {
            host: self.host.clone(),
            port: self.port,
            username: self.username.clone(),
            password: clone_optional_text(&self.password),
            private_key_path: clone_optional_text(&self.private_key_path),
        }
    }
}

impl Default for SftpConfig {
    fn default() -> (config: Self)
        ensures
            config.host@ == "localhost"@,
            config.port == 22,
            config.username@ == Seq::<char>::empty(),
            config.password is None,
            config.private_key_path is None,
    {
        SftpConfig {
            host: String::from_str("localhost"),
            port: 22,
            username: String::new(),
            password: None,
            private_key_path: None,
        }
    }
}

/// Whether, and how, the time of day gates downloading.
#[derive(Debug, Clone, Copy, PartialEq, Eq, Structural)]
pub enum ScheduleMode {
    /// No schedule: downloading is always permitted.
    Off,
    Daily,
    Weekly,
}

/// A time of day as the user entered it.
#[derive(Debug, Clone, Copy, PartialEq)]
pub struct TimeOfDay {
    pub hour: u8,
    pub minute: u8,
}

impl TimeOfDay {
    /// Minutes since midnight.
    pub open spec fn minutes(self) -> int {
        self.hour * 60 + self.minute
    }

    /// The time so many hours and minutes later on the clock face: the hour
    /// wraps at 24 and the minute at 60, each on its own.
    pub fn stepped(self, hours: u8, minutes: u8) -> (time: TimeOfDay)
        ensures
            time.hour == (self.hour + hours) % 24,
            time.minute == (self.minute + minutes) % 60,
    {
        TimeOfDay {
            hour: ((self.hour as u16 + hours as u16) % 24) as u8,
            minute: ((self.minute as u16 + minutes as u16) % 60) as u8,
        }
    }
}

/// The days of the week on which a weekly schedule is open.
#[derive(Debug, Clone, Copy, PartialEq)]
pub struct WeekDays {
    pub mon: bool,
    pub tue: bool,
    pub wed: bool,
    pub thu: bool,
    pub fri: bool,
    pub sat: bool,
    pub sun: bool,
}

impl WeekDays {
    /// The days with the day at `index` switched over, where 0 is Monday and
    /// 6 is Sunday; unchanged for any other index.
    pub open spec fn with_toggled(self, index: u8) -> WeekDays {
        if index == 0 {
            WeekDays { mon: !self.mon, ..self }
        } else if index == 1 {
            WeekDays { tue: !self.tue, ..self }
        } else if index == 2 {
            WeekDays { wed: !self.wed, ..self }
        } else if index == 3 {
            WeekDays { thu: !self.thu, ..self }
        } else if index == 4 {
            WeekDays { fri: !self.fri, ..self }
        } else if index == 5 {
            WeekDays { sat: !self.sat, ..self }
        } else if index == 6 {
            WeekDays { sun: !self.sun, ..self }
        } else {
            self
        }
    }

    /// Switches the day at `index` over.
    pub fn toggle(&mut self, index: u8)
        ensures
            *final(self) == old(self).with_toggled(index),
    {
        if index == 0 {
            self.mon = !self.mon;
        } else if index == 1 {
            self.tue = !self.tue;
        } else if index == 2 {
            self.wed = !self.wed;
        } else if index == 3 {
            self.thu = !self.thu;
        } else if index == 4 {
            self.fri = !self.fri;
        } else if index == 5 {
            self.sat = !self.sat;
        } else if index == 6 {
            self.sun = !self.sun;
        }
    }
}

/// The download schedule.
#[derive(Debug, Clone, Copy, PartialEq)]
pub struct ScheduleConfig {
    pub mode: ScheduleMode,
    pub start_time: TimeOfDay,
    pub end_time: TimeOfDay,
    pub days: WeekDays,
}

impl Default for ScheduleConfig {
    fn default() -> (config: Self)
        ensures
            config.mode == ScheduleMode::Off,
            config.start_time == (TimeOfDay { hour: 0, minute: 0 }),
            config.end_time == (TimeOfDay { hour: 6, minute: 0 }),
            config.days == (WeekDays {
                mon: false,
                tue: false,
                wed: false,
                thu: false,
                fri: false,
                sat: false,
                sun: false,
            }),
    {
        ScheduleConfig {
            mode: ScheduleMode::Off,
            start_time: TimeOfDay { hour: 0, minute: 0 },
            end_time: TimeOfDay { hour: 6, minute: 0 },
            days: WeekDays {
                mon: false,
                tue: false,
                wed: false,
                thu: false,
                fri: false,
                sat: false,
                sun: false,
            },
        }
    }
}

/// What was transferred on one day.
#[derive(Debug, PartialEq)]
pub struct DailyStat {
    /// The day, written `YYYY-MM-DD`.
    pub date: String,
    pub bytes_downloaded: u64,
    pub seconds_active: u64,
}

impl Clone for DailyStat {
    fn clone(&self) -> (copy: Self)
        ensures
            copy == *self,
    {
        DailyStat {
            date: self.date.clone(),
            bytes_downloaded: self.bytes_downloaded,
            seconds_active: self.seconds_active,
        }
    }
}

/// The whole configuration document.
#[derive(Debug, PartialEq)]
pub struct AppConfig {
    pub sftp_config: SftpConfig,
    /// A percentage, 0 to 100.
    pub download_threshold: u8,
    pub local_download_path: String,
    pub schedule: ScheduleConfig,
    pub last_remote_path: String,
    pub auto_connect: bool,
    /// In KB/s; 0 means unlimited.
    pub max_download_speed: u64,
    pub download_stats: Vec<DailyStat>,
}

impl Clone for AppConfig {
    fn clone(&self) -> (copy: Self)
        ensures
            copy.sftp_config == self.sftp_config,
            copy.download_threshold == self.download_threshold,
            copy.local_download_path == self.local_download_path,
            copy.schedule == self.schedule,
            copy.last_remote_path == self.last_remote_path,
            copy.auto_connect == self.auto_connect,
            copy.max_download_speed == self.max_download_speed,
            copy.download_stats@ == self.download_stats@,
    {
        let mut download_stats: Vec<DailyStat> = Vec::new();
        let mut at: usize = 0;
        while at < self.download_stats.len()
            invariant
                at <= self.download_stats@.len(),
                download_stats@ == self.download_stats@.take(at as int),
            decreases self.download_stats@.len() - at,
        {
            download_stats.push(self.download_stats[at].clone());
            assert(download_stats@ =~= self.download_stats@.take(at + 1));
            at += 1;
        }
        assert(self.download_stats@.take(at as int) =~= self.download_stats@);
        AppConfig {
            sftp_config: self.sftp_config.clone(),
            download_threshold: self.download_threshold,
            local_download_path: self.local_download_path.clone(),
            schedule: self.schedule,
            last_remote_path: self.last_remote_path.clone(),
            auto_connect: self.auto_connect,
            max_download_speed: self.max_download_speed,
            download_stats,
        }
    }
}

/// The directory that downloads go to unless the user picks another: the
/// user's own download directory where the system named one, else `.`.
pub fn default_download_path(found: Option<String>) -> (path: String)
    ensures
        path@ == (match found {
            Some(directory) => directory@,
            None => "."@,
        }),
{
    match found {
        Some(directory) => directory,
        None => String::from_str("."),
    }
}

impl AppConfig {
    /// The configuration of a first start. `found` is the user's own
    /// download directory where the system named one: downloads go there,
    /// and to `.` where it named none. Nothing else depends on the machine.
    pub fn with_download_dir(found: Option<String>) -> (config: Self)
        ensures
            config.sftp_config.host@ == "localhost"@,
            config.sftp_config.port == 22,
            config.sftp_config.username@ == Seq::<char>::empty(),
            config.sftp_config.password is None,
            config.sftp_config.private_key_path is None,
            config.download_threshold == 0,
            config.local_download_path@ == (match found {
                Some(directory) => directory@,
                None => "."@,
            }),
            config.schedule.mode == ScheduleMode::Off,
            config.schedule.start_time == (TimeOfDay { hour: 0, minute: 0 }),
            config.schedule.end_time == (TimeOfDay { hour: 6, minute: 0 }),
            config.schedule.days == (WeekDays {
                mon: false,
                tue: false,
                wed: false,
                thu: false,
                fri: false,
                sat: false,
                sun: false,
            }),
            config.last_remote_path@ == "."@,
            !config.auto_connect,
            config.max_download_speed == 0,
            config.download_stats@ == Seq::<DailyStat>::empty(),
    {
        AppConfig {
            sftp_config: SftpConfig::default(),
            download_threshold: 0,
            local_download_path: default_download_path(found),
            schedule: ScheduleConfig::default(),
            last_remote_path: String::from_str("."),
            auto_connect: false,
            max_download_speed: 0,
            download_stats: Vec::new(),
        }
    }
}

/// The entries that an average over the last `days` days looks at: the last
/// `days` entries, or all of them where there are fewer.
pub open spec fn recent(stats: Seq<DailyStat>, days: nat) -> Seq<DailyStat> {
    if stats.len() <= days {
        stats
    } else {
        stats.subrange(stats.len() - days, stats.len() as int)
    }
}

/// The bytes of all entries together.
pub open spec fn total_bytes(stats: Seq<DailyStat>) -> nat
    decreases stats.len(),
{
    if stats.len() == 0 {
        0
    } else {
        total_bytes(stats.drop_last()) + stats.last().bytes_downloaded as nat
    }
}

/// The active seconds of all entries together.
pub open spec fn total_seconds(stats: Seq<DailyStat>) -> nat
    decreases stats.len(),
{
    if stats.len() == 0 {
        0
    } else {
        total_seconds(stats.drop_last()) + stats.last().seconds_active as nat
    }
}

/// Bytes per second over the last `days` entries; 0 where no second was counted.
pub open spec fn average_speed(stats: Seq<DailyStat>, days: nat) -> nat {
    let window = recent(stats, days);
    if total_seconds(window) == 0 {
        0
    } else {
        total_bytes(window) / total_seconds(window)
    }
}

/// The statistics once `date` has an entry at the end: unchanged where the
/// last entry is of that date, else with a fresh entry for it.
pub open spec fn with_entry_for(stats: Seq<DailyStat>, date: Seq<char>) -> Seq<(Seq<char>, u64, u64)> {
    let plain = stats.map_values(|s: DailyStat| (s.date@, s.bytes_downloaded, s.seconds_active));
    if stats.len() > 0 && stats.last().date@ == date {
        plain
    } else {
        plain.push((date, 0u64, 0u64))
    }
}

/// The statistics after `bytes` and `seconds` were counted for `date`.
pub open spec fn with_counted(
    stats: Seq<DailyStat>,
    date: Seq<char>,
    bytes: u64,
    seconds: u64,
) -> Seq<(Seq<char>, u64, u64)> {
    let ready = with_entry_for(stats, date);
    let last = ready.last();
    ready.update(
        ready.len() - 1,
        (last.0, (last.1 + bytes) as u64, (last.2 + seconds) as u64),
    )
}

/// The statistics as plain values: date, bytes, seconds.
pub open spec fn plain_stats(stats: Seq<DailyStat>) -> Seq<(Seq<char>, u64, u64)> {
    stats.map_values(|s: DailyStat| (s.date@, s.bytes_downloaded, s.seconds_active))
}

/// Whether counting `bytes` and `seconds` for `date` stays within `u64`.
pub open spec fn can_count(stats: Seq<DailyStat>, date: Seq<char>, bytes: u64, seconds: u64) -> bool {
    stats.len() > 0 && stats.last().date@ == date ==> stats.last().bytes_downloaded + bytes
        <= u64::MAX && stats.last().seconds_active + seconds <= u64::MAX
}

impl AppConfig {
    /// Makes sure that the last entry of the statistics is the one for today,
    /// and returns its position. `date` is today's date on the local
    /// calendar, written `YYYY-MM-DD`.
    pub fn get_today_stat(&mut self, date: String) -> (index: usize)
        ensures
            plain_stats(final(self).download_stats@) == with_entry_for(
                old(self).download_stats@,
                date@,
            ),
            index == final(self).download_stats@.len() - 1,
            final(self).download_stats@[index as int].date@ == date@,
            final(self).sftp_config == old(self).sftp_config,
            final(self).download_threshold == old(self).download_threshold,
            final(self).local_download_path == old(self).local_download_path,
            final(self).schedule == old(self).schedule,
            final(self).last_remote_path == old(self).last_remote_path,
            final(self).auto_connect == old(self).auto_connect,
            final(self).max_download_speed == old(self).max_download_speed,
    {
        let count = self.download_stats.len();
        let fresh = if count == 0 {
            true
        } else {
            !(self.download_stats[count - 1].date == date)
        };
        if fresh {
            let ghost before = self.download_stats@;
            self.download_stats.push(
                DailyStat { date, bytes_downloaded: 0, seconds_active: 0 },
            );
            assert(plain_stats(self.download_stats@) =~= plain_stats(before).push(
                (date@, 0u64, 0u64),
            ));
        }
        self.download_stats.len() - 1
    }

    /// Counts `bytes` and `seconds` for today. `date` is today's date on the
    /// local calendar, written `YYYY-MM-DD`.
    pub fn add_daily_stat(&mut self, date: String, bytes: u64, seconds: u64)
        requires
            can_count(old(self).download_stats@, date@, bytes, seconds),
        ensures
            plain_stats(final(self).download_stats@) == with_counted(
                old(self).download_stats@,
                date@,
                bytes,
                seconds,
            ),
            final(self).sftp_config == old(self).sftp_config,
            final(self).download_threshold == old(self).download_threshold,
            final(self).local_download_path == old(self).local_download_path,
            final(self).schedule == old(self).schedule,
            final(self).last_remote_path == old(self).last_remote_path,
            final(self).auto_connect == old(self).auto_connect,
            final(self).max_download_speed == old(self).max_download_speed,
    {
        let index = self.get_today_stat(date);
        let ghost ready = self.download_stats@;
        let entry = &self.download_stats[index];
        proof {
            let before = old(self).download_stats@;
            let listed = with_entry_for(before, date@);
            assert(plain_stats(ready)[index as int] == (
                entry.date@,
                entry.bytes_downloaded,
                entry.seconds_active,
            ));
            if before.len() > 0 && before.last().date@ == date@ {
                assert(listed.last() == plain_stats(before)[before.len() - 1]);
            } else {
                assert(listed.last() == (date@, 0u64, 0u64));
            }
        }
        let updated = DailyStat {
            date: entry.date.clone(),
            bytes_downloaded: entry.bytes_downloaded + bytes,
            seconds_active: entry.seconds_active + seconds,
        };
        self.download_stats.set(index, updated);
        assert(plain_stats(self.download_stats@) =~= with_counted(
            old(self).download_stats@,
            date@,
            bytes,
            seconds,
        ));
    }

    /// Bytes per second over the last seven entries.
    pub fn get_weekly_average(&self) -> (speed: u64)
        requires
            average_speed(self.download_stats@, 7) <= u64::MAX,
        ensures
            speed == average_speed(self.download_stats@, 7),
    {
        self.get_average_speed(7)
    }

    /// Bytes per second over the last thirty entries.
    pub fn get_monthly_average(&self) -> (speed: u64)
        requires
            average_speed(self.download_stats@, 30) <= u64::MAX,
        ensures
            speed == average_speed(self.download_stats@, 30),
    {
        self.get_average_speed(30)
    }

    /// Bytes per second over the last `days` entries: 0 where they count no
    /// active second, else all their bytes divided by all their seconds.
    pub fn get_average_speed(&self, days: usize) -> (speed: u64)
        requires
            average_speed(self.download_stats@, days as nat) <= u64::MAX,
        ensures
            speed == average_speed(self.download_stats@, days as nat),
    {
        let count = self.download_stats.len();
        if count == 0 {
            return 0;
        }
        let start = if count <= days {
            0
        } else {
            count - days
        };
        let ghost window = recent(self.download_stats@, days as nat);
        let mut bytes: u128 = 0;
        let mut seconds: u128 = 0;
        let mut index = start;
        while index < count
            invariant
                start <= index <= count,
                count == self.download_stats@.len(),
                window == self.download_stats@.subrange(start as int, count as int),
                bytes == total_bytes(window.take(index - start)),
                seconds == total_seconds(window.take(index - start)),
                bytes <= (index - start) * u64::MAX,
                seconds <= (index - start) * u64::MAX,
            decreases count - index,
        {
            let entry = &self.download_stats[index];
            proof {
                let upto = window.take(index - start + 1);
                assert(upto.drop_last() =~= window.take(index - start));
                assert(upto.last() == self.download_stats@[index as int]);
                assert((index - start) * u64::MAX + u64::MAX <= usize::MAX * u64::MAX)
                    by (nonlinear_arith)
                    requires
                        index - start < usize::MAX,
                ;
                assert(usize::MAX * u64::MAX <= u128::MAX) by (nonlinear_arith);
            }
            bytes = bytes + entry.bytes_downloaded as u128;
            seconds = seconds + entry.seconds_active as u128;
            index += 1;
        }
        assert(window.take(count - start) =~= window);
        if seconds == 0 {
            0
        } else {
            (bytes / seconds) as u64
        }
    }
}

/// The average is the quotient of the two sums wherever a second was counted,
/// and 0 exactly where none was counted or the bytes are fewer than the seconds.
pub proof fn lemma_average_zero(stats: Seq<DailyStat>, days: nat)
    ensures
        total_seconds(recent(stats, days)) == 0 ==> average_speed(stats, days) == 0,
        total_seconds(recent(stats, days)) > 0 ==> average_speed(stats, days) == total_bytes(
            recent(stats, days),
        ) / total_seconds(recent(stats, days)),
        average_speed(stats, days) == 0 <==> total_seconds(recent(stats, days)) == 0 || total_bytes(
            recent(stats, days),
        ) < total_seconds(recent(stats, days)),
{
    let bytes = total_bytes(recent(stats, days));
    let seconds = total_seconds(recent(stats, days));
    if seconds > 0 {
        assert((bytes / seconds == 0) <==> bytes < seconds) by (nonlinear_arith)
            requires
                seconds > 0,
                bytes >= 0,
        ;
    }
}

} // verus!
