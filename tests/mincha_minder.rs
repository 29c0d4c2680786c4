use chrono::{Datelike, NaiveDate, TimeZone};
use mincha_minder::mincha_minder::{
    checked_sunset, consecutive_days, event_window, local_day, weekday_of, Clock, Event, LatLong, Schedule,
    ScheduleError, Time, Zeman, DEFAULT_DAYS, EVENT_SECONDS, MAX_DAY, MAX_INSTANT,
};
use mincha_minder::web::landing;
use sunrise::sunrise_sunset;
use tzf_rs::DefaultFinder;
use tzfile::Tz;

const NORTH_YORK: (f64, f64) = (43.73, -79.44);

// 2023-03-10T12:00:00Z
const MARCH_10_NOON_UTC: i64 = 1_678_449_600;

fn toronto() -> Tz {
    Tz::named("America/Toronto").unwrap()
}

fn utc_zone() -> Tz {
    Tz::named("Etc/UTC").unwrap()
}

fn mincha() -> Zeman {
    Zeman::new("Mincha", Time::after_sunset(40), 5)
}

// The sunsets of the schedule's days, as the sunrise crate computes them.
fn sunsets_for(sch: &Schedule, lat: f64, long: f64) -> Vec<Option<i64>> {
    let epoch = NaiveDate::from_ymd_opt(1970, 1, 1).unwrap();
    sch.day_numbers()
        .unwrap()
        .into_iter()
        .map(|day| {
            let date = epoch + chrono::Duration::days(day);
            let (_, t) = sunrise_sunset(lat, long, date.year(), date.month(), date.day());
            checked_sunset(day, t)
        })
        .collect()
}

fn toronto_instant(y: i32, mo: u32, d: u32, h: u32, min: u32, s: u32) -> i64 {
    let tz = toronto();
    (&tz).with_ymd_and_hms(y, mo, d, h, min, s).unwrap().timestamp()
}

fn north_york_schedule() -> Schedule {
    let (lat, long) = NORTH_YORK;
    let finder = DefaultFinder::new();
    let tz = Tz::named(finder.get_tz_name(long, lat)).unwrap();
    let lat_long = LatLong::new(43_730_000, -79_440_000, tz).unwrap();
    Schedule::new(lat_long, &Clock::fixed(MARCH_10_NOON_UTC)).with_zemanim(vec![mincha()])
}

#[test]
fn generates_events_for_correct_times() {
    let sch = north_york_schedule();
    let (lat, long) = NORTH_YORK;
    let sunsets = sunsets_for(&sch, lat, long);
    let events = sch.events(sch.anchor_day().unwrap(), &sunsets).unwrap();
    let first_event = events.first().unwrap();
    let last_event = events.last().unwrap();

    assert_eq!("Mincha", first_event.title());
    assert_eq!(toronto_instant(2023, 3, 10, 18, 56, 56), first_event.start());
    assert_eq!(toronto_instant(2023, 3, 10, 19, 16, 56), first_event.end());
    assert_eq!(toronto_instant(2023, 6, 7, 21, 36, 46), last_event.start());
    assert_eq!(toronto_instant(2023, 6, 7, 21, 56, 46), last_event.end());
}

#[test]
fn north_york_window_has_ninety_days() {
    let sch = north_york_schedule();
    assert_eq!(DEFAULT_DAYS, sch.days());
    let days = sch.day_numbers().unwrap();
    assert_eq!(90, days.len());
    // 2023-03-10 and 2023-06-07
    assert_eq!(19426, days[0]);
    assert_eq!(19515, days[89]);
}

#[test]
fn starts_increase_day_by_day() {
    let sch = north_york_schedule();
    let (lat, long) = NORTH_YORK;
    let events = sch.events(sch.anchor_day().unwrap(), &sunsets_for(&sch, lat, long)).unwrap();
    for pair in events.windows(2) {
        assert!(pair[0].start() < pair[1].start());
    }
}

#[test]
fn every_event_lasts_twenty_minutes() {
    let sch = north_york_schedule();
    let (lat, long) = NORTH_YORK;
    let events = sch.events(sch.anchor_day().unwrap(), &sunsets_for(&sch, lat, long)).unwrap();
    assert_eq!(90, events.len());
    for e in &events {
        assert_eq!(1200, e.end() - e.start());
        assert_eq!(5, e.alarm_lead());
    }
}

#[test]
fn generating_twice_gives_the_same_events() {
    let sch = north_york_schedule();
    let (lat, long) = NORTH_YORK;
    let sunsets = sunsets_for(&sch, lat, long);
    let a: Vec<Event> = sch.events(sch.anchor_day().unwrap(), &sunsets).unwrap();
    let b: Vec<Event> = sch.events(sch.anchor_day().unwrap(), &sunsets).unwrap();
    assert_eq!(a.len(), b.len());
    for (x, y) in a.iter().zip(b.iter()) {
        assert_eq!(x.title(), y.title());
        assert_eq!(x.start(), y.start());
        assert_eq!(x.end(), y.end());
        assert_eq!(x.alarm_lead(), y.alarm_lead());
    }
}

#[test]
fn no_days_gives_no_events() {
    let sch = north_york_schedule().with_days(0);
    assert_eq!(0, sch.day_numbers().unwrap().len());
    assert_eq!(0, sch.events(sch.anchor_day().unwrap(), &vec![]).unwrap().len());
}

#[test]
fn polar_day_reports_undefined_sunset() {
    // Midsummer near the north pole: the sun does not set.
    let lat_long = LatLong::new(89_000_000, 0, utc_zone()).unwrap();
    // 2023-06-21T12:00:00Z
    let sch = Schedule::new(lat_long, &Clock::fixed(1_687_348_800))
        .with_zemanim(vec![mincha()])
        .with_days(3);
    let sunsets = sunsets_for(&sch, 89.0, 0.0);
    assert_eq!(vec![None, None, None], sunsets);
    assert_eq!(Some(ScheduleError::SunsetUndefined(0)), sch.events(sch.anchor_day().unwrap(), &sunsets).err());
}

#[test]
fn first_missing_sunset_is_named() {
    let lat_long = LatLong::new(0, 0, utc_zone()).unwrap();
    let sch = Schedule::new(lat_long, &Clock::fixed(0)).with_zemanim(vec![mincha()]).with_days(4);
    let sunsets = vec![Some(64_800), Some(151_200), None, None];
    assert_eq!(Some(ScheduleError::SunsetUndefined(2)), sch.events(0, &sunsets).err());
    let out_of_range = vec![Some(64_800), Some(MAX_INSTANT + 1), None, None];
    assert_eq!(Some(ScheduleError::SunsetUndefined(1)), sch.events(0, &out_of_range).err());
}

#[test]
fn wrong_number_of_sunsets_is_rejected() {
    let lat_long = LatLong::new(0, 0, utc_zone()).unwrap();
    let sch = Schedule::new(lat_long, &Clock::fixed(0)).with_zemanim(vec![mincha()]).with_days(2);
    assert_eq!(
        Some(ScheduleError::InvalidConfiguration),
        sch.events(0, &vec![Some(64_800)]).err()
    );
    assert_eq!(Some(ScheduleError::InvalidConfiguration), sch.to_ical(0, &vec![]).err());
}

#[test]
fn events_come_day_by_day_then_by_zeman() {
    let lat_long = LatLong::new(0, 0, utc_zone()).unwrap();
    let sch = Schedule::new(lat_long, &Clock::fixed(0))
        .with_zemanim(vec![
            Zeman::new("Mincha", Time::after_sunset(-15), 10),
            Zeman::new("Maariv", Time::after_sunset(50), 0),
        ])
        .with_days(2);
    let events = sch.events(0, &vec![Some(64_800), Some(151_260)]).unwrap();
    let got: Vec<(&str, i64, i64, u32)> =
        events.iter().map(|e| (e.title(), e.start(), e.end(), e.alarm_lead())).collect();
    assert_eq!(
        vec![
            ("Mincha", 63_900, 65_100, 10),
            ("Maariv", 67_800, 69_000, 0),
            ("Mincha", 150_360, 151_560, 10),
            ("Maariv", 154_260, 155_460, 0),
        ],
        got
    );
}

#[test]
fn event_window_applies_offset_and_length() {
    let w = event_window(1_000_000, 40, 5);
    assert_eq!(1_002_400, w.start);
    assert_eq!(1_003_600, w.end);
    assert_eq!(5, w.alarm_lead);
    let before = event_window(1_000_000, -30, 0);
    assert_eq!(998_200, before.start);
    assert_eq!(EVENT_SECONDS, before.end - before.start);
}

#[test]
fn zeman_times_follow_sunset() {
    let z = mincha();
    assert_eq!(1_002_400, z.time(1_000_000));
    assert_eq!(5, z.alarm_time());
    let e = z.to_evt_for_date(1_000_000);
    assert_eq!("Mincha", e.title());
    assert_eq!(1_003_600, e.end());
}

#[test]
fn local_day_follows_local_midnight() {
    assert_eq!(0, local_day(0, 0));
    assert_eq!(-1, local_day(0, -1));
    assert_eq!(-1, local_day(-1, 0));
    assert_eq!(-2, local_day(-86_401, 0));
    // 2023-03-11T03:00:00Z is still 2023-03-10 in Toronto (UTC-5).
    assert_eq!(19427, local_day(1_678_503_600, 0));
    assert_eq!(19426, local_day(1_678_503_600, -18_000));
}

#[test]
fn anchor_day_uses_the_time_zone() {
    // 2023-03-11T03:00:00Z
    let t = 1_678_503_600;
    let toronto_sch = Schedule::new(LatLong::new(43_730_000, -79_440_000, toronto()).unwrap(), &Clock::fixed(t));
    assert_eq!(Ok(19426), toronto_sch.anchor_day());
    let utc_sch = Schedule::new(LatLong::new(0, 0, utc_zone()).unwrap(), &Clock::fixed(t));
    assert_eq!(Ok(19427), utc_sch.anchor_day());
    let far = utc_sch.with_date(MAX_INSTANT + 1);
    assert_eq!(Err(ScheduleError::InvalidConfiguration), far.anchor_day());
    assert_eq!(Some(ScheduleError::InvalidConfiguration), far.day_numbers().err());
}

#[test]
fn consecutive_days_count_up() {
    assert_eq!(vec![7, 8, 9], consecutive_days(7, 3));
    assert_eq!(Vec::<i64>::new(), consecutive_days(-5, 0));
}

#[test]
fn checked_sunset_keeps_plausible_readings() {
    let day = 19426;
    assert_eq!(Some(1_678_492_616), checked_sunset(day, 1_678_492_616));
    assert_eq!(None, checked_sunset(day, 0));
    assert_eq!(Some(day * 86_400 - 86_400), checked_sunset(day, day * 86_400 - 86_400));
    assert_eq!(None, checked_sunset(day, day * 86_400 + 2 * 86_400));
}

#[test]
fn coordinates_out_of_range_are_rejected() {
    assert_eq!(Some(ScheduleError::InvalidConfiguration), LatLong::new(90_000_001, 0, utc_zone()).err());
    assert_eq!(Some(ScheduleError::InvalidConfiguration), LatLong::new(0, -180_000_001, utc_zone()).err());
    let l = LatLong::new(-90_000_000, 180_000_000, utc_zone()).unwrap();
    assert_eq!(-90_000_000, l.lat());
    assert_eq!(180_000_000, l.long());
}

#[test]
fn fixed_clock_reads_its_instant() {
    assert_eq!(MARCH_10_NOON_UTC, Clock::fixed(MARCH_10_NOON_UTC).now());
    // 2023-01-01T00:00:00Z
    assert!(Clock::system().now() > 1_672_531_200);
}

#[test]
fn builders_set_their_fields() {
    let sch = north_york_schedule().with_days(7).with_date(0);
    assert_eq!(7, sch.days());
    assert_eq!(43_730_000, sch.lat_long().lat());
    assert_eq!(Ok(-1), sch.anchor_day());
}

#[test]
fn ical_holds_each_event() {
    let lat_long = LatLong::new(0, 0, utc_zone()).unwrap();
    let sch = Schedule::new(lat_long, &Clock::fixed(0)).with_zemanim(vec![mincha()]).with_days(2);
    let text = sch.to_ical(0, &vec![Some(64_800), Some(151_200)]).unwrap();
    assert!(text.starts_with("BEGIN:VCALENDAR"));
    assert_eq!(2, text.matches("BEGIN:VEVENT").count());
    assert!(text.contains("SUMMARY:Mincha"));
    assert!(text.contains("DTSTART:19700101T184000Z"));
    assert!(text.contains("DTEND:19700101T190000Z"));
    assert!(text.contains("DTSTART:19700102T184000Z"));
    assert!(text.contains("TRIGGER"));
    assert!(text.contains("-PT300S"));
    // Stamped with the schedule's instant; UIDs from start, zeman count and place.
    assert_eq!(4, text.matches("DTSTAMP:19700101T000000Z").count());
    assert!(text.contains("UID:134400\r\n"));
    assert!(text.contains("UID:134401\r\n"));
    assert!(text.contains("UID:307200\r\n"));
    assert!(text.contains("UID:307201\r\n"));
}

#[test]
fn landing_links_register_and_login() {
    let ctx = landing();
    assert_eq!("/register", ctx.register_url);
    assert_eq!("/login", ctx.login_url);
}

#[test]
fn non_ascii_title_is_rejected_by_ical() {
    let lat_long = LatLong::new(0, 0, utc_zone()).unwrap();
    let title = "\u{a0}".repeat(150);
    let sch = Schedule::new(lat_long, &Clock::fixed(0))
        .with_zemanim(vec![Zeman::new(&title, Time::after_sunset(40), 5)])
        .with_days(1);
    assert_eq!(1, sch.events(0, &vec![Some(64_800)]).unwrap().len());
    assert_eq!(Some(ScheduleError::InvalidConfiguration), sch.to_ical(0, &vec![Some(64_800)]).err());
}

#[test]
fn ical_of_no_days_has_no_events() {
    let lat_long = LatLong::new(0, 0, utc_zone()).unwrap();
    let sch = Schedule::new(lat_long, &Clock::fixed(0)).with_zemanim(vec![mincha()]).with_days(0);
    let text = sch.to_ical(0, &vec![]).unwrap();
    assert!(text.contains("BEGIN:VCALENDAR"));
    assert!(!text.contains("BEGIN:VEVENT"));
}

#[test]
fn events_are_equal_by_title_and_window() {
    let z = mincha();
    assert!(z.to_evt_for_date(1_000_000) == z.to_evt_for_date(1_000_000));
    assert!(z.to_evt_for_date(1_000_000) != z.to_evt_for_date(1_000_060));
    let other = Zeman::new("Maariv", Time::after_sunset(40), 5);
    assert!(z.to_evt_for_date(1_000_000) != other.to_evt_for_date(1_000_000));
    let later_alarm = Zeman::new("Mincha", Time::after_sunset(40), 6);
    assert!(z.to_evt_for_date(1_000_000) != later_alarm.to_evt_for_date(1_000_000));
}

#[test]
fn location_keeps_its_time_zone() {
    let l = LatLong::new(43_730_000, -79_440_000, toronto()).unwrap();
    assert!(*l.as_tz() == toronto());
}

#[test]
fn excluded_weekdays_add_no_events_and_need_no_sunset() {
    // Days 0 to 3 are Thursday 1970-01-01 to Sunday 1970-01-04.
    let friday_and_saturday: u8 = (1 << 5) | (1 << 6);
    let lat_long = LatLong::new(0, 0, utc_zone()).unwrap();
    let sch = Schedule::new(lat_long, &Clock::fixed(0))
        .with_zemanim(vec![mincha()])
        .with_days(4)
        .with_excluded_weekdays(friday_and_saturday);
    assert!(sch.is_included(0));
    assert!(!sch.is_included(1));
    assert!(!sch.is_included(2));
    assert!(sch.is_included(3));
    let events = sch.events(0, &vec![Some(64_800), None, None, Some(324_000)]).unwrap();
    let starts: Vec<i64> = events.iter().map(|e| e.start()).collect();
    assert_eq!(vec![67_200, 326_400], starts);
    // A kept day without a sunset is still an error, told apart from an exclusion.
    assert_eq!(
        Some(ScheduleError::SunsetUndefined(3)),
        sch.events(0, &vec![Some(64_800), None, None, None]).err()
    );
}

#[test]
fn weekdays_count_from_thursday_at_the_epoch() {
    assert_eq!(4, weekday_of(0));
    assert_eq!(3, weekday_of(-1));
    assert_eq!(0, weekday_of(3));
    // 2023-03-10 was a Friday.
    assert_eq!(5, weekday_of(19426));
}

#[test]
fn a_new_schedule_keeps_every_day() {
    let lat_long = LatLong::new(0, 0, utc_zone()).unwrap();
    let sch = Schedule::new(lat_long, &Clock::fixed(0));
    for day in -7..7 {
        assert!(sch.is_included(day));
    }
}

#[test]
fn first_day_out_of_range_is_rejected() {
    let lat_long = LatLong::new(0, 0, utc_zone()).unwrap();
    let sch = Schedule::new(lat_long, &Clock::fixed(0)).with_zemanim(vec![mincha()]).with_days(1);
    assert_eq!(
        Some(ScheduleError::InvalidConfiguration),
        sch.events(MAX_DAY + 1, &vec![Some(64_800)]).err()
    );
}

#[test]
fn ical_is_the_same_on_every_call() {
    let sch = north_york_schedule();
    let (lat, long) = NORTH_YORK;
    let sunsets = sunsets_for(&sch, lat, long);
    let first = sch.anchor_day().unwrap();
    let a = sch.to_ical(first, &sunsets).unwrap();
    let b = north_york_schedule().to_ical(first, &sunsets).unwrap();
    assert_eq!(a, b);
    assert_eq!(90, a.matches("BEGIN:VEVENT").count());
    assert!(a.contains("DTSTAMP:20230310T120000Z"));
}

#[test]
fn ical_uids_tell_zemanim_of_one_day_apart() {
    let lat_long = LatLong::new(0, 0, utc_zone()).unwrap();
    let sch = Schedule::new(lat_long, &Clock::fixed(0))
        .with_zemanim(vec![
            Zeman::new("Mincha", Time::after_sunset(0), 5),
            Zeman::new("Maariv", Time::after_sunset(0), 5),
        ])
        .with_days(1);
    let text = sch.to_ical(0, &vec![Some(64_800)]).unwrap();
    // Start 64_800 with two zemanim: 2 * (64_800 * 2 + k), and one more for each reminder.
    for uid in ["259200", "259201", "259202", "259203"] {
        assert!(text.contains(&format!("UID:{uid}\r\n")));
    }
}

#[test]
fn ical_rejects_an_instant_out_of_range() {
    let lat_long = LatLong::new(0, 0, utc_zone()).unwrap();
    let sch = Schedule::new(lat_long, &Clock::fixed(MAX_INSTANT + 1)).with_zemanim(vec![mincha()]).with_days(1);
    assert_eq!(Some(ScheduleError::InvalidConfiguration), sch.to_ical(0, &vec![Some(64_800)]).err());
}
