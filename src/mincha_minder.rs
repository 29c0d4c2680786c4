use chrono::{DateTime, Duration, Offset, TimeZone};
use icalendar::{Alarm, Component, Event as IcalEvent, EventLike, Trigger};
use tzfile::Tz;
use vstd::prelude::*;
use vstd::utf8::is_ascii_chars;

verus! {

/// Length of every generated event, in seconds (twenty minutes).
pub const EVENT_SECONDS: i64 = 1200;

/// Seconds in a civil day.
pub const DAY_SECONDS: i64 = 86400;

/// Largest distance from the Unix epoch, in seconds, of an instant that the
/// library accepts (about 253,000 years either way).
pub const MAX_INSTANT: i64 = 8_000_000_000_000;

/// Largest distance from the Unix epoch, in seconds, of an event's start or
/// end: a sunset in range moved by any offset, plus the event's length.
pub const MAX_EVENT_INSTANT: i64 = 8_200_000_000_000;

/// Largest distance from 1970-01-01, in days, of a civil day that the library
/// works with: enough for every local date of an instant in range.
pub const MAX_DAY: i64 = 200_000_000;

/// An instant, in seconds since the Unix epoch, that the library accepts.
pub open spec fn instant_in_range(t: int) -> bool {
    -MAX_INSTANT <= t <= MAX_INSTANT
}

/// The civil day number (days since 1970-01-01) of instant `t` on a clock
/// that is `offset` seconds ahead of UTC.
pub open spec fn civil_day(t: int, offset: int) -> int {
    (t + offset) / (DAY_SECONDS as int)
}

/// The day number, counted from 1970-01-01, of the local date at instant `t`
/// where the civil clock runs `offset` seconds ahead of UTC. Days begin at
/// local midnight, also before the epoch.
pub fn local_day(t: i64, offset: i32) -> (r: i64)
    requires
        instant_in_range(t as int),
        -DAY_SECONDS < offset < DAY_SECONDS,
    ensures
        r == civil_day(t as int, offset as int),
{
    let x: i64 = t + offset as i64;
    if x >= 0 {
        x / DAY_SECONDS
    } else {
        let y: i64 = -x - 1;
        let q: i64 = y / DAY_SECONDS;
        proof {
            let r = y as int % DAY_SECONDS as int;
            assert(y as int == q as int * DAY_SECONDS as int + r) by {
                vstd::arithmetic::div_mod::lemma_fundamental_div_mod(y as int, DAY_SECONDS as int);
            }
            vstd::arithmetic::div_mod::lemma_fundamental_div_mod_converse(
                x as int,
                DAY_SECONDS as int,
                -(q as int) - 1,
                DAY_SECONDS as int - 1 - r,
            );
        }
        -q - 1
    }
}

/// The start, end and reminder lead of one event.
pub struct EventWindow {
    /// Start instant, seconds since the Unix epoch.
    pub start: i64,
    /// End instant, seconds since the Unix epoch.
    pub end: i64,
    /// Minutes before the start at which a reminder fires.
    pub alarm_lead: u32,
}

/// Turns a sunset instant, a signed offset in minutes and a preparation time in
/// minutes into an event window: the event starts `offset` minutes after sunset
/// (before it, where `offset` is negative) and lasts twenty minutes.
pub fn event_window(sunset: i64, offset: i32, prep_time: u32) -> (w: EventWindow)
    requires
        instant_in_range(sunset as int),
    ensures
        w.start == sunset + 60 * offset,
        w.end == w.start + EVENT_SECONDS,
        w.alarm_lead == prep_time,
{
    let start: i64 = sunset + 60 * (offset as i64);
    EventWindow { start, end: start + EVENT_SECONDS, alarm_lead: prep_time }
}


#[verifier::external_type_specification]
#[verifier::external_body]
pub struct ExTz(tzfile::Tz);

/// The text of the iCalendar document that holds `events` in order, the
/// `i`-th with UID `uids[i]`, its reminder with UID `alarm_uids[i]`, and each
/// stamped at instant `stamp`.
pub uninterp spec fn calendar_text_of(events: Seq<EventView>, uids: Seq<i128>, alarm_uids: Seq<i128>, stamp: int) -> Seq<char>;

/// Relies on icalendar's `Calendar::new`, `Calendar::push`, the `Event`
/// builder (`summary`, `timestamp`, `uid`, `starts`, `ends`, `alarm`), the
/// `Alarm` builder (`Alarm::display`, `Trigger::before_start`, `timestamp`,
/// `uid`) and `Calendar`'s `Display` impl; on chrono's `DateTime::from_timestamp`,
/// which accepts every instant within `MAX_EVENT_INSTANT` of the epoch, and
/// `Duration::minutes`; and on `i128::to_string`. With a DTSTAMP and a UID set
/// on every component icalendar reads neither the clock nor a random source, so
/// the text depends on the arguments alone. Titles are ASCII: icalendar's line
/// folding cuts lines by byte, and on other text it can cut inside a character.
#[verifier::external_body]
fn calendar_text(events: &Vec<Event>, uids: &Vec<i128>, alarm_uids: &Vec<i128>, stamp: i64) -> (r: String)
    requires
        uids@.len() == events@.len(),
        alarm_uids@.len() == events@.len(),
        instant_in_range(stamp as int),
        forall|i: int|
            0 <= i < events@.len() ==> event_bounded(#[trigger] events@[i]@)
                && is_ascii_chars(events@[i]@.title),
    ensures
        r@ == calendar_text_of(events@.map_values(|e: Event| e@), uids@, alarm_uids@, stamp as int),
{
    let stamp = DateTime::from_timestamp(stamp, 0).unwrap();
    let mut cal = icalendar::Calendar::new();
    for ((e, uid), alarm_uid) in events.iter().zip(uids).zip(alarm_uids) {
        let lead = Duration::minutes(e.window.alarm_lead as i64);
        let alarm = Alarm::display(&e.title, Trigger::before_start(lead))
            .timestamp(stamp).uid(&alarm_uid.to_string()).done();
        cal.push(IcalEvent::new().summary(&e.title).timestamp(stamp).uid(&uid.to_string())
            .starts(DateTime::from_timestamp(e.window.start, 0).unwrap())
            .ends(DateTime::from_timestamp(e.window.end, 0).unwrap())
            .alarm(alarm).done());
    }
    cal.to_string()
}

/// Relies on std's `SystemTime::now` and `SystemTime::duration_since` (with
/// `Duration::as_secs`): the system clock's distance from the Unix epoch in
/// whole seconds, `Ok` where the clock reads the epoch or later and `Err`
/// where it reads earlier. Nothing is promised of the reading.
#[verifier::external_body]
fn system_seconds() -> (r: Result<u64, u64>) {
    match std::time::SystemTime::now().duration_since(std::time::UNIX_EPOCH) {
        Ok(d) => Ok(d.as_secs()),
        Err(e) => Err(e.duration().as_secs()),
    }
}

/// Relies on tzfile's `TimeZone` impl for `&Tz` (`offset_from_utc_datetime`,
/// which finds the zone's rule in effect at a UTC instant) and on chrono's
/// `FixedOffset::local_minus_utc`: the seconds that the zone's clock runs ahead
/// of UTC at instant `t`. chrono keeps a fixed offset strictly within one day,
/// and `DateTime::from_timestamp` accepts every instant in range.
#[verifier::external_body]
fn utc_offset_at(tz: &Tz, t: i64) -> (r: i32)
    requires
        instant_in_range(t as int),
    ensures
        -DAY_SECONDS < r < DAY_SECONDS,
{
    let utc = DateTime::from_timestamp(t, 0).unwrap().naive_utc();
    (&tz).offset_from_utc_datetime(&utc).fix().local_minus_utc()
}

/// Where "now" comes from: the system clock, or one fixed instant.
pub struct Clock {
    fixed: Option<i64>,
}

impl Clock {
    pub closed spec fn fixed_instant(&self) -> Option<i64> {
        self.fixed
    }

    /// A clock that reads the system time.
    pub fn system() -> (c: Clock)
        ensures
            c.fixed_instant() is None,
    {
        Clock { fixed: None }
    }

    /// A clock that always reads `t` (seconds since the Unix epoch).
    pub fn fixed(t: i64) -> (c: Clock)
        ensures
            c.fixed_instant() == Some(t),
    {
        Clock { fixed: Some(t) }
    }

    /// The current instant, in seconds since the Unix epoch (negative before
    /// it). A system reading beyond what an `i64` holds saturates.
    pub fn now(&self) -> (r: i64)
        ensures
            self.fixed_instant() matches Some(t) ==> r == t,
    {
        match self.fixed {
            Some(t) => t,
            None => match system_seconds() {
                Ok(s) => if s <= i64::MAX as u64 {
                    s as i64
                } else {
                    i64::MAX
                },
                Err(s) => if s <= i64::MAX as u64 {
                    -(s as i64)
                } else {
                    i64::MIN
                },
            },
        }
    }
}

/// Why a schedule could not be built or generated.
#[derive(Debug, Clone, Copy, PartialEq, Eq, Structural)]
pub enum ScheduleError {
    /// The coordinates map to no known civil time zone.
    TimeZoneResolutionFailed,
    /// The day `n` days after the anchor date has no well-defined sunset.
    SunsetUndefined(u32),
    /// A value of the configuration is out of its range.
    InvalidConfiguration,
}

/// Largest latitude, in millionths of a degree.
pub const MAX_LATITUDE: i32 = 90_000_000;

/// Largest longitude, in millionths of a degree.
pub const MAX_LONGITUDE: i32 = 180_000_000;

/// A location and its civil time zone. Coordinates are held in millionths of a
/// degree: north and east are positive.
pub struct LatLong {
    lat: i32,
    long: i32,
    tz: Tz,
}

impl LatLong {
    pub closed spec fn lat_e6(&self) -> int {
        self.lat as int
    }

    pub closed spec fn long_e6(&self) -> int {
        self.long as int
    }

    pub closed spec fn zone(&self) -> Tz {
        self.tz
    }

    /// Both coordinates lie in their ranges.
    pub open spec fn wf(&self) -> bool {
        -MAX_LATITUDE <= self.lat_e6() <= MAX_LATITUDE && -MAX_LONGITUDE <= self.long_e6()
            <= MAX_LONGITUDE
    }

    /// A location at `lat` / `long` millionths of a degree, in time zone `tz`.
    /// Coordinates out of range are rejected.
    pub fn new(lat: i32, long: i32, tz: Tz) -> (r: Result<LatLong, ScheduleError>)
        ensures
            (-MAX_LATITUDE <= lat <= MAX_LATITUDE && -MAX_LONGITUDE <= long <= MAX_LONGITUDE)
                <==> r is Ok,
            r matches Ok(l) ==> l.lat_e6() == lat && l.long_e6() == long && l.zone() == tz && l.wf(),
            r matches Err(e) ==> e == ScheduleError::InvalidConfiguration,
    {
        if -MAX_LATITUDE <= lat && lat <= MAX_LATITUDE && -MAX_LONGITUDE <= long && long
            <= MAX_LONGITUDE {
            Ok(LatLong { lat, long, tz })
        } else {
            Err(ScheduleError::InvalidConfiguration)
        }
    }

    /// Latitude in millionths of a degree.
    pub fn lat(&self) -> (r: i32)
        ensures
            r == self.lat_e6(),
    {
        self.lat
    }

    /// Longitude in millionths of a degree.
    pub fn long(&self) -> (r: i32)
        ensures
            r == self.long_e6(),
    {
        self.long
    }

    /// The location's civil time zone.
    pub fn as_tz(&self) -> (r: &Tz)
        ensures
            *r == self.zone(),
    {
        &self.tz
    }
}

/// When an event starts, relative to sunset.
pub struct Time {
    /// Clock minutes before (negative) or after (positive) sunset.
    pub offset: i32,
}

impl Time {
    /// `offset` minutes after sunset (before it, where negative).
    pub fn after_sunset(offset: i32) -> (t: Time)
        ensures
            t.offset == offset,
    {
        Time { offset }
    }
}

/// A named daily time, with the minutes of warning that its reminder gives.
pub struct Zeman {
    time: Time,
    name: String,
    prep_time: u32,
}

/// What a `Zeman` is, in contracts.
pub struct ZemanView {
    pub name: Seq<char>,
    pub offset: int,
    pub prep_time: nat,
}

impl View for Zeman {
    type V = ZemanView;

    closed spec fn view(&self) -> ZemanView {
        ZemanView { name: self.name@, offset: self.time.offset as int, prep_time: self.prep_time as nat }
    }
}

/// What an `Event` is, in contracts.
pub struct EventView {
    pub title: Seq<char>,
    pub start: int,
    pub end: int,
    pub alarm_lead: nat,
}

/// A titled occurrence with its window.
pub struct Event {
    title: String,
    window: EventWindow,
}

impl PartialEq for Event {
    /// Two events are equal when their titles and windows are.
    fn eq(&self, other: &Event) -> (r: bool)
        ensures
            r == (self@ == other@),
    {
        self.title == other.title && self.window.start == other.window.start && self.window.end
            == other.window.end && self.window.alarm_lead == other.window.alarm_lead
    }
}

impl vstd::std_specs::cmp::PartialEqSpecImpl for Event {
    open spec fn obeys_eq_spec() -> bool {
        true
    }

    open spec fn eq_spec(&self, other: &Event) -> bool {
        self@ == other@
    }
}

impl View for Event {
    type V = EventView;

    closed spec fn view(&self) -> EventView {
        EventView {
            title: self.title@,
            start: self.window.start as int,
            end: self.window.end as int,
            alarm_lead: self.window.alarm_lead as nat,
        }
    }
}

/// An event whose start and end lie within `MAX_EVENT_INSTANT` of the epoch.
pub open spec fn event_bounded(e: EventView) -> bool {
    -MAX_EVENT_INSTANT <= e.start <= MAX_EVENT_INSTANT && -MAX_EVENT_INSTANT <= e.end
        <= MAX_EVENT_INSTANT
}

/// The UID number of the `i`-th of `evs` in a schedule of `m` zemanim: twice
/// its start times `m`, plus its place within its day. The reminder of the
/// event takes the next number, so no two components share one.
pub open spec fn event_uid(evs: Seq<EventView>, m: int, i: int) -> int {
    2 * (evs[i].start * m + i % m)
}

/// The UID numbers of `evs`, in order.
pub open spec fn event_uids(evs: Seq<EventView>, m: int) -> Seq<i128> {
    Seq::new(evs.len(), |i: int| event_uid(evs, m, i) as i128)
}

/// The UID numbers of the reminders of `evs`, in order.
pub open spec fn alarm_uids(evs: Seq<EventView>, m: int) -> Seq<i128> {
    Seq::new(evs.len(), |i: int| (event_uid(evs, m, i) + 1) as i128)
}

/// Every title among `evs` is ASCII.
pub open spec fn titles_ascii(evs: Seq<EventView>) -> bool {
    forall|i: int| 0 <= i < evs.len() ==> is_ascii_chars(#[trigger] evs[i].title)
}

/// The event of zeman `z` on a day whose sunset falls at instant `sunset`.
pub open spec fn event_of(z: ZemanView, sunset: int) -> EventView {
    EventView {
        title: z.name,
        start: sunset + 60 * z.offset,
        end: sunset + 60 * z.offset + EVENT_SECONDS,
        alarm_lead: z.prep_time,
    }
}

impl Event {
    /// The event's display title.
    pub fn title(&self) -> (r: &str)
        ensures
            r@ == self@.title,
    {
        self.title.as_str()
    }

    /// Start instant, seconds since the Unix epoch.
    pub fn start(&self) -> (r: i64)
        ensures
            r == self@.start,
    {
        self.window.start
    }

    /// End instant, seconds since the Unix epoch.
    pub fn end(&self) -> (r: i64)
        ensures
            r == self@.end,
    {
        self.window.end
    }

    /// Minutes before the start at which the reminder fires.
    pub fn alarm_lead(&self) -> (r: u32)
        ensures
            r == self@.alarm_lead,
    {
        self.window.alarm_lead
    }
}

impl Zeman {
    /// A zeman called `name` at `time`, reminded `prep_time` minutes ahead.
    pub fn new(name: &str, time: Time, prep_time: u32) -> (z: Zeman)
        ensures
            z@ == (ZemanView { name: name@, offset: time.offset as int, prep_time: prep_time as nat }),
    {
        Zeman { time, name: name.to_owned(), prep_time }
    }

    /// The start of this zeman's event on a day with sunset at `sunset`.
    pub fn time(&self, sunset: i64) -> (r: i64)
        requires
            instant_in_range(sunset as int),
        ensures
            r == event_of(self@, sunset as int).start,
    {
        sunset + 60 * (self.time.offset as i64)
    }

    /// Minutes before the start at which the reminder fires.
    pub fn alarm_time(&self) -> (r: u32)
        ensures
            r == self@.prep_time,
    {
        self.prep_time
    }

    /// This zeman's event on a day with sunset at `sunset`.
    pub fn to_evt_for_date(&self, sunset: i64) -> (e: Event)
        requires
            instant_in_range(sunset as int),
        ensures
            e@ == event_of(self@, sunset as int),
            e@.end - e@.start == EVENT_SECONDS,
            event_bounded(e@),
    {
        Event { title: self.name.clone(), window: event_window(sunset, self.time.offset, self.prep_time) }
    }
}

/// Number of days that a new schedule covers.
pub const DEFAULT_DAYS: u32 = 90;

/// A sunset reading that the generator can use: present and in range.
pub open spec fn sunset_defined(s: Option<i64>) -> bool {
    s matches Some(t) && instant_in_range(t as int)
}

/// Day of the week of civil day `day`: 0 for Sunday up to 6 for Saturday
/// (1970-01-01 was a Thursday).
pub open spec fn weekday(day: int) -> int {
    (day + 4) % 7
}

/// Day `day` is kept where `excluded`, a set of weekdays in which bit `w`
/// stands for weekday `w`, does not hold its weekday.
pub open spec fn day_included(excluded: u8, day: int) -> bool {
    (excluded >> (weekday(day) as u8)) & 1u8 == 0u8
}

/// `n` is the first kept day, counting from day `first`, whose sunset reading
/// is unusable.
pub open spec fn first_undefined(excluded: u8, first: int, sunsets: Seq<Option<i64>>, n: int) -> bool {
    0 <= n < sunsets.len() && day_included(excluded, first + n) && !sunset_defined(sunsets[n])
        && forall|j: int|
        0 <= j < n && day_included(excluded, first + j) ==> sunset_defined(#[trigger] sunsets[j])
}

/// The events of `zemanim` on a day whose sunset falls at `t`, in order.
pub open spec fn day_events(zemanim: Seq<ZemanView>, t: int) -> Seq<EventView> {
    Seq::new(zemanim.len(), |k: int| event_of(zemanim[k], t))
}

/// The events for `zemanim` over the days from `first` whose sunsets are
/// `sunsets`: day by day, and within a day in the order of `zemanim`. A day
/// that `excluded` leaves out adds none.
pub open spec fn events_of(zemanim: Seq<ZemanView>, excluded: u8, first: int, sunsets: Seq<Option<i64>>) -> Seq<
    EventView,
>
    decreases sunsets.len(),
{
    if sunsets.len() == 0 {
        Seq::empty()
    } else {
        let n = sunsets.len() - 1;
        events_of(zemanim, excluded, first, sunsets.drop_last()) + if day_included(excluded, first + n) {
            day_events(zemanim, sunsets[n]->0 as int)
        } else {
            Seq::empty()
        }
    }
}

/// What generating a schedule of `zemanim` over `days` days from civil day
/// `first`, leaving out the weekdays in `excluded`, yields given the sunset
/// reading of each day: every event, or the first problem met.
pub open spec fn schedule_result(
    zemanim: Seq<ZemanView>,
    excluded: u8,
    first: int,
    days: nat,
    sunsets: Seq<Option<i64>>,
) -> Result<Seq<EventView>, ScheduleError> {
    if sunsets.len() != days || !(-MAX_DAY <= first <= MAX_DAY) {
        Err(ScheduleError::InvalidConfiguration)
    } else if exists|n: int| first_undefined(excluded, first, sunsets, n) {
        Err(ScheduleError::SunsetUndefined((choose|n: int| first_undefined(excluded, first, sunsets, n)) as u32))
    } else {
        Ok(events_of(zemanim, excluded, first, sunsets))
    }
}

proof fn lemma_weekday_next(day: int)
    ensures
        0 <= weekday(day) < 7,
        weekday(day + 1) == if weekday(day) == 6 {
            0
        } else {
            weekday(day) + 1
        },
{
    vstd::arithmetic::div_mod::lemma_fundamental_div_mod(day + 4, 7);
    let q = (day + 4) / 7;
    let r = (day + 4) % 7;
    if r == 6 {
        vstd::arithmetic::div_mod::lemma_fundamental_div_mod_converse(day + 5, 7, q + 1, 0);
    } else {
        vstd::arithmetic::div_mod::lemma_fundamental_div_mod_converse(day + 5, 7, q, r + 1);
    }
}

/// The day of the week of civil day `day`: 0 for Sunday up to 6 for Saturday.
pub fn weekday_of(day: i64) -> (w: u8)
    requires
        -MAX_DAY <= day <= MAX_DAY,
    ensures
        w == weekday(day as int),
        w < 7,
{
    let x: i64 = day + 4 + 7 * 40_000_000;
    proof {
        vstd::arithmetic::div_mod::lemma_mod_multiples_vanish(40_000_000, day + 4, 7);
    }
    (x % 7) as u8
}

/// The views of a result's events.
pub open spec fn result_view(r: Result<Vec<Event>, ScheduleError>) -> Result<Seq<EventView>, ScheduleError> {
    match r {
        Ok(v) => Ok(v@.map_values(|e: Event| e@)),
        Err(e) => Err(e),
    }
}

/// The days `anchor`, `anchor + 1`, ... for `days` days.
pub open spec fn days_from(anchor: int, days: nat) -> Seq<int> {
    Seq::new(days, |i: int| anchor + i)
}

/// A recurring set of zemanim at one location, over a window of days that
/// starts on the local date of a given instant.
pub struct Schedule {
    zemanim: Vec<Zeman>,
    lat_long: LatLong,
    date: i64,
    days: u32,
    excluded: u8,
}

impl Schedule {
    pub closed spec fn zemanim_view(&self) -> Seq<ZemanView> {
        self.zemanim@.map_values(|z: Zeman| z@)
    }

    pub closed spec fn date_spec(&self) -> int {
        self.date as int
    }

    pub closed spec fn day_count(&self) -> nat {
        self.days as nat
    }

    pub closed spec fn location(&self) -> &LatLong {
        &self.lat_long
    }

    /// The weekdays left out: bit `w` stands for weekday `w`, 0 for Sunday.
    pub closed spec fn excluded_days(&self) -> u8 {
        self.excluded
    }

    /// A schedule at `lat_long` with no zemanim, over 90 days that start on
    /// the local date of `clock`'s current instant.
    pub fn new(lat_long: LatLong, clock: &Clock) -> (r: Schedule)
        ensures
            r.zemanim_view() == Seq::<ZemanView>::empty(),
            r.day_count() == DEFAULT_DAYS,
            clock.fixed_instant() matches Some(t) ==> r.date_spec() == t,
            r.location() == &lat_long,
            r.excluded_days() == 0,
    {
        let date = clock.now();
        Schedule { zemanim: Vec::new(), lat_long, date, days: DEFAULT_DAYS, excluded: 0 }
    }

    /// The same schedule, anchored at the local date of instant `date`.
    pub fn with_date(self, date: i64) -> (r: Schedule)
        ensures
            r.date_spec() == date,
            r.zemanim_view() == self.zemanim_view(),
            r.day_count() == self.day_count(),
            r.location() == self.location(),
            r.excluded_days() == self.excluded_days(),
    {
        Schedule { date, ..self }
    }

    /// The same schedule, with `events` as its zemanim, in that order.
    pub fn with_zemanim(self, events: Vec<Zeman>) -> (r: Schedule)
        ensures
            r.zemanim_view() == events@.map_values(|z: Zeman| z@),
            r.date_spec() == self.date_spec(),
            r.day_count() == self.day_count(),
            r.location() == self.location(),
            r.excluded_days() == self.excluded_days(),
    {
        Schedule { zemanim: events, ..self }
    }

    /// The same schedule, over `days` days.
    pub fn with_days(self, days: u32) -> (r: Schedule)
        ensures
            r.day_count() == days,
            r.zemanim_view() == self.zemanim_view(),
            r.date_spec() == self.date_spec(),
            r.location() == self.location(),
            r.excluded_days() == self.excluded_days(),
    {
        Schedule { days, ..self }
    }

    /// The same schedule, leaving out the days whose weekday is in
    /// `weekdays`: bit `w` stands for weekday `w`, 0 for Sunday up to 6 for
    /// Saturday. No bit set keeps every day.
    pub fn with_excluded_weekdays(self, weekdays: u8) -> (r: Schedule)
        ensures
            r.excluded_days() == weekdays,
            r.day_count() == self.day_count(),
            r.zemanim_view() == self.zemanim_view(),
            r.date_spec() == self.date_spec(),
            r.location() == self.location(),
    {
        Schedule { excluded: weekdays, ..self }
    }

    /// Whether civil day `day` is kept, rather than left out by weekday.
    pub fn is_included(&self, day: i64) -> (r: bool)
        requires
            -MAX_DAY <= day <= MAX_DAY,
        ensures
            r == day_included(self.excluded_days(), day as int),
    {
        let w = weekday_of(day);
        (self.excluded >> w) & 1u8 == 0u8
    }

    /// The location of this schedule.
    pub fn lat_long(&self) -> (r: &LatLong)
        ensures
            r == self.location(),
    {
        &self.lat_long
    }

    /// Number of days covered.
    pub fn days(&self) -> (r: u32)
        ensures
            r == self.day_count(),
    {
        self.days
    }

    /// The day number of the local date of this schedule's instant, in its
    /// location's time zone. An instant out of range is rejected.
    pub fn anchor_day(&self) -> (r: Result<i64, ScheduleError>)
        ensures
            r is Ok <==> instant_in_range(self.date_spec()),
            r matches Err(e) ==> e == ScheduleError::InvalidConfiguration,
            r matches Ok(d) ==> exists|off: int|
                -DAY_SECONDS < off < DAY_SECONDS && d == civil_day(self.date_spec(), off),
    {
        if -MAX_INSTANT <= self.date && self.date <= MAX_INSTANT {
            let off = utc_offset_at(self.lat_long.as_tz(), self.date);
            let d = local_day(self.date, off);
            assert(d == civil_day(self.date_spec(), off as int));
            Ok(d)
        } else {
            Err(ScheduleError::InvalidConfiguration)
        }
    }

    /// The civil day numbers whose sunsets the schedule needs, in order: the
    /// anchor day and each following day, for the schedule's number of days.
    pub fn day_numbers(&self) -> (r: Result<Vec<i64>, ScheduleError>)
        ensures
            r is Ok <==> instant_in_range(self.date_spec()),
            r matches Err(e) ==> e == ScheduleError::InvalidConfiguration,
            r matches Ok(v) ==> exists|off: int|
                -DAY_SECONDS < off < DAY_SECONDS && v@.map_values(|d: i64| d as int) == days_from(
                    civil_day(self.date_spec(), off),
                    self.day_count(),
                ),
    {
        match self.anchor_day() {
            Ok(anchor) => {
                let ghost off = choose|off: int|
                    -DAY_SECONDS < off < DAY_SECONDS && anchor == civil_day(self.date_spec(), off);
                proof {
                    assert(-MAX_INSTANT - DAY_SECONDS <= self.date_spec() + off <= MAX_INSTANT + DAY_SECONDS);
                    assert(-MAX_DAY <= anchor <= MAX_DAY) by {
                        vstd::arithmetic::div_mod::lemma_div_is_ordered(
                            -MAX_INSTANT - DAY_SECONDS,
                            self.date_spec() + off,
                            DAY_SECONDS as int,
                        );
                        vstd::arithmetic::div_mod::lemma_div_is_ordered(
                            self.date_spec() + off,
                            MAX_INSTANT + DAY_SECONDS,
                            DAY_SECONDS as int,
                        );
                    }
                }
                let v = consecutive_days(anchor, self.days);
                Ok(v)
            },
            Err(e) => Err(e),
        }
    }

    /// Every event of this schedule, given its first civil day `first_day`
    /// (the anchor day) and the sunset instant of each of its days in order
    /// (`None` where a day has no sunset).
    ///
    /// Events come day by day, and within a day in the order of the zemanim.
    /// A day whose weekday is excluded adds no events and needs no sunset. A
    /// kept day without a usable sunset stops generation with
    /// `SunsetUndefined` and that day's index: no kept day is silently left
    /// out. A list of sunsets of the wrong length, or a first day out of
    /// range, is rejected.
    pub fn events(&self, first_day: i64, sunsets: &Vec<Option<i64>>) -> (r: Result<Vec<Event>, ScheduleError>)
        ensures
            result_view(r) == schedule_result(
                self.zemanim_view(),
                self.excluded_days(),
                first_day as int,
                self.day_count(),
                sunsets@,
            ),
            r matches Err(ScheduleError::InvalidConfiguration) <==> (sunsets@.len() != self.day_count()
                || !(-MAX_DAY <= first_day <= MAX_DAY)),
            r is Ok <==> (sunsets@.len() == self.day_count() && -MAX_DAY <= first_day <= MAX_DAY
                && forall|n: int|
                0 <= n < sunsets@.len() && day_included(self.excluded_days(), first_day + n)
                    ==> sunset_defined(#[trigger] sunsets@[n])),
            r matches Err(ScheduleError::SunsetUndefined(n)) ==> first_undefined(
                self.excluded_days(),
                first_day as int,
                sunsets@,
                n as int,
            ),
            r matches Ok(v) ==> forall|i: int| 0 <= i < v@.len() ==> event_bounded(#[trigger] v@[i]@),
            self.day_count() == 0 && sunsets@.len() == 0 && -MAX_DAY <= first_day <= MAX_DAY ==> (r matches Ok(v)
                && v@.len() == 0),
    {
        let ghost zs = self.zemanim_view();
        let ghost ss = sunsets@;
        let ghost ex = self.excluded;
        if sunsets.len() as u64 != self.days as u64 || first_day < -MAX_DAY || first_day > MAX_DAY {
            return Err(ScheduleError::InvalidConfiguration);
        }
        let m = self.zemanim.len();
        let mut out: Vec<Event> = Vec::new();
        let mut w: u8 = weekday_of(first_day);
        let mut d: usize = 0;
        while d < sunsets.len()
            invariant
                ss == sunsets@,
                zs == self.zemanim_view(),
                ex == self.excluded_days(),
                m == zs.len(),
                sunsets@.len() == self.days,
                -MAX_DAY <= first_day <= MAX_DAY,
                d <= ss.len(),
                w as int == weekday(first_day + d),
                forall|j: int|
                    0 <= j < d && day_included(ex, first_day + j) ==> sunset_defined(#[trigger] ss[j]),
                out@.map_values(|e: Event| e@) =~= events_of(zs, ex, first_day as int, ss.take(d as int)),
                forall|i: int| 0 <= i < out@.len() ==> event_bounded(#[trigger] out@[i]@),
            decreases ss.len() - d,
        {
            proof {
                lemma_weekday_next(first_day + d);
                assert(ss.take(d + 1).drop_last() =~= ss.take(d as int));
                assert(ss.take(d + 1)[d as int] == ss[d as int]);
            }
            let included = (self.excluded >> w) & 1u8 == 0u8;
            if included {
                let ok = match sunsets[d] {
                    Some(t) => -MAX_INSTANT <= t && t <= MAX_INSTANT,
                    None => false,
                };
                if !ok {
                    proof {
                        assert(first_undefined(ex, first_day as int, ss, d as int));
                        let c = choose|c: int| first_undefined(ex, first_day as int, ss, c);
                        if c < d as int {
                            assert(sunset_defined(ss[c]));
                        }
                        if c > d as int {
                            assert(sunset_defined(ss[d as int]));
                        }
                        assert(c == d);
                    }
                    return Err(ScheduleError::SunsetUndefined(d as u32));
                }
                let t = match sunsets[d] {
                    Some(t) => t,
                    None => 0,
                };
                let ghost base = out@.map_values(|e: Event| e@);
                let mut k: usize = 0;
                while k < m
                    invariant
                        zs == self.zemanim_view(),
                        m == zs.len(),
                        k <= m,
                        instant_in_range(t as int),
                        out@.map_values(|e: Event| e@) =~= base + day_events(zs, t as int).take(k as int),
                        forall|i: int| 0 <= i < out@.len() ==> event_bounded(#[trigger] out@[i]@),
                    decreases m - k,
                {
                    let e = self.zemanim[k].to_evt_for_date(t);
                    let ghost before = out@;
                    out.push(e);
                    proof {
                        assert(out@ == before.push(e));
                        assert(out@.map_values(|e: Event| e@) =~= before.map_values(|e: Event| e@).push(e@));
                        assert(day_events(zs, t as int).take(k + 1) =~= day_events(zs, t as int).take(
                            k as int,
                        ).push(day_events(zs, t as int)[k as int]));
                    }
                    k = k + 1;
                }
                assert(day_events(zs, t as int).take(m as int) =~= day_events(zs, t as int));
            }
            w = if w == 6 { 0 } else { w + 1 };
            d = d + 1;
        }
        assert(ss.take(ss.len() as int) =~= ss);
        assert(!exists|c: int| first_undefined(ex, first_day as int, ss, c));
        Ok(out)
    }

    /// This schedule's events as an iCalendar document, given its first civil
    /// day and the sunset instant of each of its days. Every event and
    /// reminder is stamped with the schedule's instant and carries a UID made
    /// from its start and its place within its day, so the text depends on
    /// the schedule and the sunsets alone. It fails where `events` does, and
    /// with `InvalidConfiguration` where an event's title is not ASCII or the
    /// schedule's instant is out of range.
    pub fn to_ical(&self, first_day: i64, sunsets: &Vec<Option<i64>>) -> (r: Result<String, ScheduleError>)
        ensures
            schedule_result(self.zemanim_view(), self.excluded_days(), first_day as int, self.day_count(), sunsets@) matches Err(e)
                ==> r == Err::<String, ScheduleError>(e),
            schedule_result(self.zemanim_view(), self.excluded_days(), first_day as int, self.day_count(), sunsets@) matches Ok(evs)
                ==> (r is Ok <==> titles_ascii(evs) && instant_in_range(self.date_spec())),
            schedule_result(self.zemanim_view(), self.excluded_days(), first_day as int, self.day_count(), sunsets@) matches Ok(evs)
                ==> (r matches Ok(text) ==> text@ == calendar_text_of(
                evs,
                event_uids(evs, self.zemanim_view().len() as int),
                alarm_uids(evs, self.zemanim_view().len() as int),
                self.date_spec(),
            )),
            r matches Err(e) ==> (e == ScheduleError::InvalidConfiguration || schedule_result(
                self.zemanim_view(),
                self.excluded_days(),
                first_day as int,
                self.day_count(),
                sunsets@,
            ) == Err::<Seq<EventView>, ScheduleError>(e)),
    {
        let evs = match self.events(first_day, sunsets) {
            Ok(v) => v,
            Err(e) => return Err(e),
        };
        let ghost zs = self.zemanim_view();
        let ghost view = evs@.map_values(|e: Event| e@);
        let m = self.zemanim.len();
        let mut uids: Vec<i128> = Vec::new();
        let mut alarms: Vec<i128> = Vec::new();
        let mut i: usize = 0;
        while i < evs.len()
            invariant
                i <= evs@.len(),
                zs == self.zemanim_view(),
                m == zs.len(),
                view == evs@.map_values(|e: Event| e@),
                schedule_result(zs, self.excluded_days(), first_day as int, self.day_count(), sunsets@) == Ok::<
                    Seq<EventView>,
                    ScheduleError,
                >(view),
                forall|j: int| 0 <= j < evs@.len() ==> event_bounded(#[trigger] evs@[j]@),
                forall|j: int| 0 <= j < i ==> is_ascii_chars(#[trigger] view[j].title),
                uids@ =~= event_uids(view, m as int).take(i as int),
                alarms@ =~= alarm_uids(view, m as int).take(i as int),
            decreases evs@.len() - i,
        {
            if !evs[i].title.is_ascii() {
                assert(!is_ascii_chars(view[i as int].title));
                return Err(ScheduleError::InvalidConfiguration);
            }
            proof {
                lemma_event_source(zs, self.excluded_days(), first_day as int, sunsets@, i as int);
                assert(view[i as int] == evs@[i as int]@);
                assert(event_bounded(evs@[i as int]@));
            }
            let start = evs[i].start();
            let k = i % m;
            proof {
                let st = start as int;
                let mm = m as int;
                assert(-MAX_EVENT_INSTANT * 0x1_0000_0000_0000_0000 <= st * mm <= MAX_EVENT_INSTANT * 0x1_0000_0000_0000_0000)
                    by (nonlinear_arith)
                    requires
                        -MAX_EVENT_INSTANT <= st <= MAX_EVENT_INSTANT,
                        0 < mm < 0x1_0000_0000_0000_0000,
                ;
            }
            let base: i128 = start as i128 * m as i128 + k as i128;
            uids.push(2 * base);
            alarms.push(2 * base + 1);
            proof {
                assert(event_uids(view, m as int).take(i + 1) =~= event_uids(view, m as int).take(i as int).push(
                    event_uids(view, m as int)[i as int],
                ));
                assert(alarm_uids(view, m as int).take(i + 1) =~= alarm_uids(view, m as int).take(i as int).push(
                    alarm_uids(view, m as int)[i as int],
                ));
            }
            i = i + 1;
        }
        if self.date < -MAX_INSTANT || self.date > MAX_INSTANT {
            return Err(ScheduleError::InvalidConfiguration);
        }
        assert(titles_ascii(view));
        assert forall|j: int| 0 <= j < evs@.len() implies is_ascii_chars(#[trigger] evs@[j]@.title) by {
            assert(view[j] == evs@[j]@);
        }
        assert(uids@ =~= event_uids(view, m as int));
        assert(alarms@ =~= alarm_uids(view, m as int));
        Ok(calendar_text(&evs, &uids, &alarms, self.date))
    }
}

/// A sunset reading `t` is plausible for civil day `day` when it falls between
/// the start of the day before and the end of the day after, in UTC: a local
/// sunset lies there for every time zone.
pub open spec fn plausible_sunset(day: int, t: int) -> bool {
    (day - 1) * DAY_SECONDS <= t < (day + 2) * DAY_SECONDS
}

/// A sunset calculator's reading for civil day `day`, kept where it is
/// plausible for that day and dropped where it is not, as happens on days
/// without a sunset.
pub fn checked_sunset(day: i64, t: i64) -> (r: Option<i64>)
    requires
        -MAX_DAY <= day <= MAX_DAY,
    ensures
        r == (if plausible_sunset(day as int, t as int) {
            Some(t)
        } else {
            None::<i64>
        }),
{
    if (day - 1) * DAY_SECONDS <= t && t < (day + 2) * DAY_SECONDS {
        Some(t)
    } else {
        None
    }
}

/// The days `anchor`, `anchor + 1`, ... for `days` days.
pub fn consecutive_days(anchor: i64, days: u32) -> (v: Vec<i64>)
    requires
        -MAX_DAY <= anchor <= MAX_DAY,
    ensures
        v@.map_values(|d: i64| d as int) == days_from(anchor as int, days as nat),
{
    let mut v: Vec<i64> = Vec::new();
    let mut n: u32 = 0;
    while n < days
        invariant
            n <= days,
            -MAX_DAY <= anchor <= MAX_DAY,
            v@.map_values(|d: i64| d as int) =~= days_from(anchor as int, n as nat),
        decreases days - n,
    {
        let ghost before = v@;
        v.push(anchor + n as i64);
        assert(v@.map_values(|d: i64| d as int) =~= before.map_values(|d: i64| d as int).push(
            anchor + n,
        ));
        n = n + 1;
    }
    v
}

/// Every day has a sunset, and sunsets fall later from each day to the next.
pub open spec fn sunsets_increasing(sunsets: Seq<Option<i64>>) -> bool {
    forall|i: int, j: int|
        0 <= i < j < sunsets.len() ==> (#[trigger] sunsets[i]) is Some && (#[trigger] sunsets[j]) is Some
            && sunsets[i]->0 < sunsets[j]->0
}

/// The day whose sunset the `i`-th generated event is taken from.
pub open spec fn source_day(zemanim: Seq<ZemanView>, excluded: u8, first: int, sunsets: Seq<Option<i64>>, i: int) -> int
    decreases sunsets.len(),
{
    if sunsets.len() == 0 {
        0
    } else if i < events_of(zemanim, excluded, first, sunsets.drop_last()).len() {
        source_day(zemanim, excluded, first, sunsets.drop_last(), i)
    } else {
        sunsets.len() - 1
    }
}

/// The zeman that the `i`-th generated event is an occurrence of.
pub open spec fn source_zeman(zemanim: Seq<ZemanView>, excluded: u8, first: int, sunsets: Seq<Option<i64>>, i: int) -> int
    decreases sunsets.len(),
{
    if sunsets.len() == 0 {
        0
    } else if i < events_of(zemanim, excluded, first, sunsets.drop_last()).len() {
        source_zeman(zemanim, excluded, first, sunsets.drop_last(), i)
    } else {
        i - events_of(zemanim, excluded, first, sunsets.drop_last()).len()
    }
}

/// Each generated event is the event of one zeman on one day.
pub proof fn lemma_event_source(zemanim: Seq<ZemanView>, excluded: u8, first: int, sunsets: Seq<Option<i64>>, i: int)
    requires
        0 <= i < events_of(zemanim, excluded, first, sunsets).len(),
    ensures
        0 <= source_day(zemanim, excluded, first, sunsets, i) < sunsets.len(),
        0 <= source_zeman(zemanim, excluded, first, sunsets, i) < zemanim.len(),
        events_of(zemanim, excluded, first, sunsets)[i] == event_of(
            zemanim[source_zeman(zemanim, excluded, first, sunsets, i)],
            sunsets[source_day(zemanim, excluded, first, sunsets, i)]->0 as int,
        ),
    decreases sunsets.len(),
{
    let p = sunsets.drop_last();
    let prev = events_of(zemanim, excluded, first, p);
    if i < prev.len() {
        lemma_event_source(zemanim, excluded, first, p, i);
    }
}

proof fn lemma_one_zeman_sorted(zemanim: Seq<ZemanView>, excluded: u8, first: int, sunsets: Seq<Option<i64>>)
    requires
        sunsets_increasing(sunsets),
        zemanim.len() == 1,
    ensures
        forall|i: int, j: int|
            0 <= i < j < events_of(zemanim, excluded, first, sunsets).len() ==> (#[trigger] events_of(
                zemanim,
                excluded,
                first,
                sunsets,
            )[i]).start < (#[trigger] events_of(zemanim, excluded, first, sunsets)[j]).start,
    decreases sunsets.len(),
{
    if sunsets.len() > 0 {
        let n = sunsets.len() - 1;
        let p = sunsets.drop_last();
        assert(sunsets_increasing(p)) by {
            assert forall|i: int, j: int| 0 <= i < j < p.len() implies (#[trigger] p[i]) is Some
                && (#[trigger] p[j]) is Some && p[i]->0 < p[j]->0 by {
                assert(p[i] == sunsets[i] && p[j] == sunsets[j]);
            }
        }
        lemma_one_zeman_sorted(zemanim, excluded, first, p);
        let prev = events_of(zemanim, excluded, first, p);
        let all = events_of(zemanim, excluded, first, sunsets);
        assert forall|i: int, j: int| 0 <= i < j < all.len() implies (#[trigger] all[i]).start
            < (#[trigger] all[j]).start by {
            assert(all[i] == prev[i]);
            if j < prev.len() {
                assert(all[j] == prev[j]);
            } else {
                lemma_event_source(zemanim, excluded, first, p, i);
                let sd = source_day(zemanim, excluded, first, p, i);
                assert(p[sd] == sunsets[sd]);
                assert(all[j] == event_of(zemanim[0], sunsets[n]->0 as int));
                assert(sunsets[sd]->0 < sunsets[n]->0);
            }
        }
    }
}

/// Where sunsets fall later from day to day, a schedule of one zeman yields
/// events in strictly increasing start order, whichever days are left out.
pub proof fn lemma_single_zeman_starts_increase(
    zemanim: Seq<ZemanView>,
    excluded: u8,
    first: int,
    days: nat,
    sunsets: Seq<Option<i64>>,
)
    requires
        sunsets_increasing(sunsets),
        zemanim.len() == 1,
    ensures
        schedule_result(zemanim, excluded, first, days, sunsets) matches Ok(evs) ==> forall|i: int, j: int|
            0 <= i < j < evs.len() ==> (#[trigger] evs[i]).start < (#[trigger] evs[j]).start,
{
    lemma_one_zeman_sorted(zemanim, excluded, first, sunsets);
}

/// Every generated event lasts exactly twenty minutes, whatever the offset and
/// the preparation time.
pub proof fn lemma_events_last_twenty_minutes(
    zemanim: Seq<ZemanView>,
    excluded: u8,
    first: int,
    days: nat,
    sunsets: Seq<Option<i64>>,
)
    ensures
        schedule_result(zemanim, excluded, first, days, sunsets) matches Ok(evs) ==> forall|i: int|
            0 <= i < evs.len() ==> (#[trigger] evs[i]).end - evs[i].start == EVENT_SECONDS,
{
    assert forall|i: int| 0 <= i < events_of(zemanim, excluded, first, sunsets).len() implies (#[trigger] events_of(
        zemanim,
        excluded,
        first,
        sunsets,
    )[i]).end - events_of(zemanim, excluded, first, sunsets)[i].start == EVENT_SECONDS by {
        lemma_event_source(zemanim, excluded, first, sunsets, i);
    }
}

/// Generation has no hidden inputs: two schedules with the same zemanim,
/// excluded weekdays and number of days, given the same first day and
/// sunsets, yield the same result.
pub proof fn lemma_generation_deterministic(a: &Schedule, b: &Schedule, first: int, sunsets: Seq<Option<i64>>)
    requires
        a.zemanim_view() == b.zemanim_view(),
        a.excluded_days() == b.excluded_days(),
        a.day_count() == b.day_count(),
    ensures
        schedule_result(a.zemanim_view(), a.excluded_days(), first, a.day_count(), sunsets)
            == schedule_result(b.zemanim_view(), b.excluded_days(), first, b.day_count(), sunsets),
{
}

/// A schedule over no days yields no events, and no error.
pub proof fn lemma_no_days_no_events(zemanim: Seq<ZemanView>, excluded: u8, first: int)
    requires
        -MAX_DAY <= first <= MAX_DAY,
    ensures
        schedule_result(zemanim, excluded, first, 0, Seq::<Option<i64>>::empty()) == Ok::<
            Seq<EventView>,
            ScheduleError,
        >(Seq::<EventView>::empty()),
{
    assert(!exists|n: int| first_undefined(excluded, first, Seq::<Option<i64>>::empty(), n));
}

/// With no weekday excluded, which is how a schedule starts, every day is
/// kept.
pub proof fn lemma_no_exclusion_keeps_every_day(day: int)
    ensures
        day_included(0u8, day),
{
    let w = weekday(day) as u8;
    assert((0u8 >> w) & 1u8 == 0u8) by (bit_vector);
}

/// Exporting has no hidden inputs: two schedules with the same zemanim,
/// excluded weekdays, number of days and instant, given the same first day and
/// sunsets, hand the same events, UIDs and time stamp to the document.
pub proof fn lemma_document_deterministic(a: &Schedule, b: &Schedule, first: int, sunsets: Seq<Option<i64>>)
    requires
        a.zemanim_view() == b.zemanim_view(),
        a.excluded_days() == b.excluded_days(),
        a.day_count() == b.day_count(),
        a.date_spec() == b.date_spec(),
    ensures
        schedule_result(a.zemanim_view(), a.excluded_days(), first, a.day_count(), sunsets) matches Ok(evs)
            ==> calendar_text_of(
            evs,
            event_uids(evs, a.zemanim_view().len() as int),
            alarm_uids(evs, a.zemanim_view().len() as int),
            a.date_spec(),
        ) == calendar_text_of(
            evs,
            event_uids(evs, b.zemanim_view().len() as int),
            alarm_uids(evs, b.zemanim_view().len() as int),
            b.date_spec(),
        ),
        schedule_result(a.zemanim_view(), a.excluded_days(), first, a.day_count(), sunsets)
            == schedule_result(b.zemanim_view(), b.excluded_days(), first, b.day_count(), sunsets),
{
}

/// A schedule over no days hands no event, and no UID, to its document.
pub proof fn lemma_no_days_empty_document(zemanim: Seq<ZemanView>, excluded: u8, first: int)
    requires
        -MAX_DAY <= first <= MAX_DAY,
    ensures
        schedule_result(zemanim, excluded, first, 0, Seq::<Option<i64>>::empty()) matches Ok(evs) && evs
            == Seq::<EventView>::empty() && event_uids(evs, zemanim.len() as int) == Seq::<i128>::empty()
            && alarm_uids(evs, zemanim.len() as int) == Seq::<i128>::empty(),
{
    lemma_no_days_no_events(zemanim, excluded, first);
    assert(event_uids(Seq::<EventView>::empty(), zemanim.len() as int) =~= Seq::<i128>::empty());
    assert(alarm_uids(Seq::<EventView>::empty(), zemanim.len() as int) =~= Seq::<i128>::empty());
}

} // verus!
