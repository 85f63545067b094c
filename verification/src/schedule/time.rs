use vstd::prelude::*;

verus! {

/// A wall-clock time of day, hour and minute, with no date and no time
/// zone attached.
#[derive(Debug, Clone, Copy, PartialEq, Eq, Structural)]
pub struct TimeOfDay {
    pub hour: u8,
    pub minute: u8,
}

/// An instant on the local wall clock, as the embedding program observes
/// it: the local civil date as a day number in the proleptic Gregorian
/// calendar (day 1 being January 1 of year 1) and the same instant as
/// milliseconds since the Unix epoch, UTC.
#[derive(Debug, Clone, Copy)]
pub struct LocalInstant {
    pub day: i32,
    pub utc_ms: i64,
}

/// What the time zone makes of a wall-clock datetime: a unique instant, an
/// ambiguous one (the clock was turned back across it; the two candidate
/// instants come in the zone implementation's order, which promises
/// nothing about which is earlier), or a skipped one (the clock was
/// turned forward over it).
#[derive(Debug, Clone, Copy)]
pub enum ResolvedLocal {
    Unique { utc_ms: i64 },
    Twice { first_ms: i64, second_ms: i64 },
    Skipped,
}

/// Largest day number handed to the time zone: far beyond any real date,
/// but safely inside chrono's calendar range.
pub const MAX_DAY: i32 = 79_000_000;

/// Magnitude bound on every timestamp chrono can produce, in milliseconds:
/// its calendar stops around year 262000.
pub const MAX_ABS_MS: i64 = 9_000_000_000_000_000;

/// The day number of January 1, 1970.
pub const UNIX_EPOCH_DAY: i32 = 719_163;

/// One day in milliseconds.
pub const DAY_MS: i64 = 86_400_000;

/// The wall-clock datetime read as UTC: the instant it would denote if
/// the zone's offset were zero, in milliseconds since the Unix epoch.
pub open spec fn wall_clock_ms(day: int, hour: int, minute: int) -> int {
    (day - UNIX_EPOCH_DAY) * 86_400_000 + (hour * 3600 + minute * 60) * 1000
}

/// An instant the zone may map a wall-clock datetime to: within a day of
/// the wall-clock reading taken as UTC, since every offset is a fraction
/// of a day.
pub open spec fn near_wall_clock(day: int, hour: int, minute: int, t: int) -> bool {
    wall_clock_ms(day, hour, minute) - DAY_MS < t < wall_clock_ms(day, hour, minute) + DAY_MS
}

/// Relies on chrono: `Local.from_local_datetime` classifies a wall-clock
/// datetime in the system time zone as unique, ambiguous or nonexistent.
/// An ambiguous result carries its two candidates in the order the zone
/// implementation produces (ascending UTC offset on unix), so no order of
/// the two instants is assumed here. Every offset chrono yields is a
/// `FixedOffset` strictly within one day, and each returned instant is
/// the wall clock minus that offset, so each lies strictly within a day
/// of the wall-clock reading taken as UTC. The argument is built with
/// `NaiveDate::from_num_days_from_ce_opt` and `NaiveTime::from_hms_opt`,
/// which accept every input the `requires` admits, and instants are read
/// back with `DateTime::timestamp_millis`, which stays within
/// `MAX_ABS_MS` for every date chrono can represent.
#[verifier::external_body]
fn resolve_local_raw(day: i32, hour: u8, minute: u8) -> (r: ResolvedLocal)
    requires
        0 <= day <= MAX_DAY + 3,
        hour < 24,
        minute < 60,
    ensures
        (r matches ResolvedLocal::Unique { utc_ms } ==> -MAX_ABS_MS <= utc_ms <= MAX_ABS_MS
            && near_wall_clock(day as int, hour as int, minute as int, utc_ms as int)),
        (r matches ResolvedLocal::Twice { first_ms, second_ms } ==> -MAX_ABS_MS <= first_ms
            <= MAX_ABS_MS && -MAX_ABS_MS <= second_ms <= MAX_ABS_MS && near_wall_clock(
            day as int,
            hour as int,
            minute as int,
            first_ms as int,
        ) && near_wall_clock(day as int, hour as int, minute as int, second_ms as int)),
{
    let date = chrono::NaiveDate::from_num_days_from_ce_opt(day).unwrap();
    let time = chrono::NaiveTime::from_hms_opt(hour as u32, minute as u32, 0).unwrap();
    let ndt = chrono::NaiveDateTime::new(date, time);
    match chrono::TimeZone::from_local_datetime(&chrono::Local, &ndt) {
        chrono::LocalResult::Single(dt) => ResolvedLocal::Unique { utc_ms: dt.timestamp_millis() },
        chrono::LocalResult::Ambiguous(x, y) => ResolvedLocal::Twice {
            first_ms: x.timestamp_millis(),
            second_ms: y.timestamp_millis(),
        },
        chrono::LocalResult::None => ResolvedLocal::Skipped,
    }
}

/// The instant a resolution stands for, if any: for an ambiguous time,
/// the smaller of the two candidate instants, i.e. the earlier one.
pub open spec fn pick_instant_spec(r: ResolvedLocal) -> Option<i64> {
    match r {
        ResolvedLocal::Unique { utc_ms } => Some(utc_ms),
        ResolvedLocal::Twice { first_ms, second_ms } => if first_ms <= second_ms {
            Some(first_ms)
        } else {
            Some(second_ms)
        },
        ResolvedLocal::Skipped => None,
    }
}

/// Turns a resolution into a concrete instant: a unique instant stands as
/// it is, an ambiguous one resolves deterministically to the earlier of
/// the two candidate instants (their minimum, whatever order the zone
/// reported them in), and a skipped one yields nothing (the caller probes
/// forward).
pub fn pick_instant(r: &ResolvedLocal) -> (t: Option<i64>)
    ensures
        t == pick_instant_spec(*r),
{
    match r {
        ResolvedLocal::Unique { utc_ms } => Some(*utc_ms),
        ResolvedLocal::Twice { first_ms, second_ms } => if *first_ms <= *second_ms {
            Some(*first_ms)
        } else {
            Some(*second_ms)
        },
        ResolvedLocal::Skipped => None,
    }
}

/// The region a probed resolution can land in: the probe walks forward at
/// most two days from the wall-clock start, and each resolution lies
/// within a day of its probe.
pub open spec fn resolver_window(start_day: int, time: TimeOfDay, t: int) -> bool {
    wall_clock_ms(start_day, time.hour as int, time.minute as int) - DAY_MS < t < wall_clock_ms(
        start_day,
        time.hour as int,
        time.minute as int,
    ) + 3 * DAY_MS
}

/// Resolves a wall-clock datetime to a concrete instant, probing forward
/// minute by minute over a skipped ("spring forward") gap until the time
/// zone yields an instant. The probe never runs past two days, far beyond
/// any real gap; if even that fails, the wall-clock time is read as UTC so
/// the resolver stays total. Either way the result lies in the probed
/// region: after the start read as UTC less a day's offset, and before
/// the probe's two days plus a day's offset.
pub fn resolve_naive(start_day: i32, time: TimeOfDay) -> (r: i64)
    requires
        0 <= start_day <= MAX_DAY + 1,
        time.wf(),
    ensures
        -MAX_ABS_MS <= r <= MAX_ABS_MS,
        resolver_window(start_day as int, time, r as int),
{
    let mut day: i32 = start_day;
    let mut hour: u8 = time.hour;
    let mut minute: u8 = time.minute;
    let mut k: u32 = 0;
    while k < 2880
        invariant
            0 <= start_day <= MAX_DAY + 1,
            time.wf(),
            hour < 24,
            minute < 60,
            k <= 2880,
            day * 1440 + hour * 60 + minute == start_day * 1440 + time.hour * 60 + time.minute
                + k,
            start_day <= day,
        decreases 2880 - k,
    {
        proof {
            assert(day * 1440 <= start_day * 1440 + 1439 + 2880);
            assert((day - start_day) * 1440 <= 4319) by (nonlinear_arith)
                requires
                    day * 1440 <= start_day * 1440 + 4319,
            ;
            assert(day - start_day <= 2) by (nonlinear_arith)
                requires
                    (day - start_day) * 1440 <= 4319,
            ;
        }
        let res = resolve_local_raw(day, hour, minute);
        if let Some(t) = pick_instant(&res) {
            proof {
                assert(wall_clock_ms(day as int, hour as int, minute as int) == wall_clock_ms(
                    start_day as int,
                    time.hour as int,
                    time.minute as int,
                ) + 60000 * (k as int)) by (nonlinear_arith)
                    requires
                        day * 1440 + hour * 60 + minute == start_day * 1440 + time.hour * 60
                            + time.minute + k && wall_clock_ms(day as int, hour as int, minute
                            as int) == (day - UNIX_EPOCH_DAY) * 86_400_000 + (hour * 3600 + minute
                            * 60) * 1000 && wall_clock_ms(start_day as int, time.hour as int,
                        time.minute as int) == (start_day - UNIX_EPOCH_DAY) * 86_400_000 + (
                        time.hour * 3600 + time.minute * 60) * 1000,
                ;
            }
            return t;
        }
        minute = minute + 1;
        if minute == 60 {
            minute = 0;
            hour = hour + 1;
        }
        if hour == 24 {
            hour = 0;
            day = day + 1;
        }
        k = k + 1;
    }
    proof {
        assert(wall_clock_ms(day as int, hour as int, minute as int) == wall_clock_ms(
            start_day as int,
            time.hour as int,
            time.minute as int,
        ) + 60000 * 2880) by (nonlinear_arith)
            requires
                day * 1440 + hour * 60 + minute == start_day * 1440 + time.hour * 60 + time.minute
                    + 2880 && wall_clock_ms(day as int, hour as int, minute as int) == (day
                    - UNIX_EPOCH_DAY) * 86_400_000 + (hour * 3600 + minute * 60) * 1000
                    && wall_clock_ms(start_day as int, time.hour as int, time.minute as int) == (
                start_day - UNIX_EPOCH_DAY) * 86_400_000 + (time.hour * 3600 + time.minute * 60)
                    * 1000,
        ;
    }
    ((day as i64) - (UNIX_EPOCH_DAY as i64)) * 86_400_000 + ((hour as i64) * 3600 + (minute
        as i64) * 60) * 1000
}

/// The documented boundary policy: an occurrence strictly in the future
/// stands; one at or before the current instant is pushed to the next day.
pub open spec fn occurrence_policy(today_ms: int, tomorrow_ms: int, now_ms: int) -> int {
    if today_ms > now_ms {
        today_ms
    } else {
        tomorrow_ms
    }
}

/// Chooses between today's and tomorrow's resolved occurrence of a time of
/// day: today's if it is still strictly in the future, else tomorrow's.
pub fn select_occurrence(today_ms: i64, tomorrow_ms: i64, now_ms: i64) -> (r: i64)
    ensures
        r as int == occurrence_policy(today_ms as int, tomorrow_ms as int, now_ms as int),
{
    if today_ms > now_ms {
        today_ms
    } else {
        tomorrow_ms
    }
}

/// The occurrence policy in words: the result is one of the two candidate
/// instants; a future occurrence today is kept and is itself in the
/// future; an occurrence exactly at the current instant, or already past,
/// is pushed to tomorrow's candidate; and whenever either candidate lies
/// in the future, so does the result.
pub proof fn lemma_occurrence_policy(today_ms: int, tomorrow_ms: int, now_ms: int)
    ensures
        occurrence_policy(today_ms, tomorrow_ms, now_ms) == today_ms || occurrence_policy(
            today_ms,
            tomorrow_ms,
            now_ms,
        ) == tomorrow_ms,
        today_ms > now_ms ==> occurrence_policy(today_ms, tomorrow_ms, now_ms) == today_ms
            && occurrence_policy(today_ms, tomorrow_ms, now_ms) > now_ms,
        today_ms == now_ms ==> occurrence_policy(today_ms, tomorrow_ms, now_ms) == tomorrow_ms,
        today_ms <= now_ms ==> occurrence_policy(today_ms, tomorrow_ms, now_ms) == tomorrow_ms,
        today_ms > now_ms || tomorrow_ms > now_ms ==> occurrence_policy(
            today_ms,
            tomorrow_ms,
            now_ms,
        ) > now_ms,
{
}

/// What the occurrence query promises: the result is the boundary
/// policy's choice between a candidate resolution of today's wall-clock
/// datetime and one of tomorrow's, each lying in its day's resolver
/// window. Which instants those candidates are is the time zone's
/// decision; everything else is pinned.
pub open spec fn occurrence_result(time: TimeOfDay, now: LocalInstant, r: int) -> bool {
    &&& -MAX_ABS_MS <= r <= MAX_ABS_MS
    &&& exists|today_ms: int, tomorrow_ms: int|
        {
            &&& #[trigger] resolver_window(now.day as int, time, today_ms)
            &&& #[trigger] resolver_window(now.day + 1, time, tomorrow_ms)
            &&& r == occurrence_policy(today_ms, tomorrow_ms, now.utc_ms as int)
        }
}

/// The next concrete local instant at which the given time of day occurs,
/// judged from `now`: today's occurrence if the time zone places it
/// strictly after `now`, else tomorrow's. Which instant a wall-clock time
/// maps to is the time zone's decision, read through `resolve_naive`; the
/// choice between the two candidates is `select_occurrence`.
pub fn next_occurrence_local(time: TimeOfDay, now: &LocalInstant) -> (r: i64)
    requires
        time.wf(),
        0 <= now.day <= MAX_DAY,
    ensures
        -MAX_ABS_MS <= r <= MAX_ABS_MS,
        occurrence_result(time, *now, r as int),
{
    let today_ms = resolve_naive(now.day, time);
    if today_ms > now.utc_ms {
        proof {
            let witness_tomorrow = wall_clock_ms(
                now.day + 1,
                time.hour as int,
                time.minute as int,
            );
            assert(resolver_window(now.day + 1, time, witness_tomorrow));
            assert(today_ms as int == occurrence_policy(
                today_ms as int,
                witness_tomorrow,
                now.utc_ms as int,
            ));
        }
        return today_ms;
    }
    let tomorrow_ms = resolve_naive(now.day + 1, time);
    let r = select_occurrence(today_ms, tomorrow_ms, now.utc_ms);
    proof {
        assert(resolver_window(now.day as int, time, today_ms as int));
        assert(resolver_window(now.day + 1, time, tomorrow_ms as int));
    }
    r
}

/// The digits of a strict two-digit `HH:MM` time string.
pub open spec fn is_ascii_digit(c: char) -> bool {
    48 <= c as int <= 57
}

/// The strict `HH:MM` 24-hour grammar: exactly five characters, two
/// digits, a colon, two digits, with the hour below 24 and the minute
/// below 60.
pub open spec fn parse_hhmm_spec(s: Seq<char>) -> Option<TimeOfDay> {
    if s.len() == 5 && is_ascii_digit(s[0]) && is_ascii_digit(s[1]) && s[2] == ':'
        && is_ascii_digit(s[3]) && is_ascii_digit(s[4]) {
        let h = (s[0] as int - 48) * 10 + (s[1] as int - 48);
        let m = (s[3] as int - 48) * 10 + (s[4] as int - 48);
        if h < 24 && m < 60 {
            Some(TimeOfDay { hour: h as u8, minute: m as u8 })
        } else {
            None
        }
    } else {
        None
    }
}

impl TimeOfDay {
    /// Every constructed value has a real hour and minute.
    pub open spec fn wf(self) -> bool {
        self.hour < 24 && self.minute < 60
    }

    /// The time as a minute count from midnight, the sort key of a
    /// schedule.
    pub open spec fn minute_of_day(self) -> int {
        self.hour * 60 + self.minute
    }

    /// Builds a time of day from an hour and a minute, refusing values off
    /// the clock.
    pub fn from_hms(hour: u8, minute: u8) -> (r: Option<TimeOfDay>)
        ensures
            hour < 24 && minute < 60 ==> r == Some(TimeOfDay { hour, minute }),
            !(hour < 24 && minute < 60) ==> r is None,
    {
        if hour < 24 && minute < 60 {
            Some(TimeOfDay { hour, minute })
        } else {
            None
        }
    }

    /// Parses a strict `HH:MM` 24-hour string.
    pub fn parse_hhmm(s: &str) -> (r: Option<TimeOfDay>)
        ensures
            r == parse_hhmm_spec(s@),
            r matches Some(t) ==> t.wf(),
    {
        let n = s.unicode_len();
        if n != 5 {
            return None;
        }
        let c0 = s.get_char(0) as u32;
        let c1 = s.get_char(1) as u32;
        let c2 = s.get_char(2);
        let c3 = s.get_char(3) as u32;
        let c4 = s.get_char(4) as u32;
        if !(48 <= c0 && c0 <= 57 && 48 <= c1 && c1 <= 57 && c2 == ':' && 48 <= c3 && c3 <= 57
            && 48 <= c4 && c4 <= 57) {
            return None;
        }
        let h: u32 = (c0 - 48) * 10 + (c1 - 48);
        let m: u32 = (c3 - 48) * 10 + (c4 - 48);
        if h < 24 && m < 60 {
            Some(TimeOfDay { hour: h as u8, minute: m as u8 })
        } else {
            None
        }
    }
}

} // verus!
