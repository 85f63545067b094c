pub mod time;

pub use time::{LocalInstant, ResolvedLocal, TimeOfDay};

use crate::config::ScheduleItem;
use crate::volume::{Percentage, PercentageError};
use time::{next_occurrence_local, occurrence_result, parse_hhmm_spec, MAX_ABS_MS, MAX_DAY};
use vstd::prelude::*;
use vstd::seq_lib::group_to_multiset_ensures;

verus! {

/// One schedule entry: a time of day and the level the actuator should
/// reach at it.
#[derive(Debug, Clone, Copy)]
pub struct Target {
    pub desired_sound: Percentage,
    pub time: TimeOfDay,
}

/// One concrete scheduled task: the level to reach, the instant it must be
/// reached at (milliseconds on the caller's monotonic clock), and the
/// window before that instant over which the level is moved.
#[derive(Debug, Clone, Copy)]
pub struct Invocation {
    pub desired_sound: Percentage,
    pub time: u64,
    pub ramp_duration: u64,
}

impl Invocation {
    /// The instant the pre-ramp window opens: the deadline less the ramp
    /// duration.
    pub fn get_start(&self) -> (r: u64)
        requires
            self.ramp_duration <= self.time,
        ensures
            r == self.time - self.ramp_duration,
    {
        self.time - self.ramp_duration
    }
}

/// Why a schedule could not be built from raw entries.
#[derive(Debug)]
pub enum ScheduleError {
    /// The time portion of an entry is not a strict `HH:MM` time.
    UnparsedTime(String),
    /// The level portion of an entry is out of range.
    UnparsedVolume(PercentageError),
}

/// A target entry is valid: its level is in range and its time is on the
/// clock.
pub open spec fn target_wf(t: Target) -> bool {
    t.desired_sound.wf() && t.time.wf()
}

/// The targets stand in ascending order of time of day.
pub open spec fn targets_sorted(s: Seq<Target>) -> bool {
    forall|i: int, j: int|
        0 <= i < j < s.len() ==> #[trigger] s[i].time.minute_of_day() <= #[trigger] s[
            j
        ].time.minute_of_day()
}

/// Whether a raw entry parses: a strict `HH:MM` time and a level in range.
pub open spec fn item_parses(it: ScheduleItem) -> bool {
    parse_hhmm_spec(it.time@) is Some && it.volume <= 100
}

/// The target a parsed raw entry denotes.
pub open spec fn target_of(it: ScheduleItem) -> Target {
    Target {
        desired_sound: Percentage::spec_from(it.volume),
        time: parse_hhmm_spec(it.time@).unwrap(),
    }
}

/// The error construction reports for a bad entry: the time is judged
/// first, the level second, as `from_schedule_items` does.
pub open spec fn is_item_error(it: ScheduleItem, e: ScheduleError) -> bool {
    if parse_hhmm_spec(it.time@) is None {
        e matches ScheduleError::UnparsedTime(t) && t@ == it.time@
    } else {
        e == ScheduleError::UnparsedVolume(
            PercentageError::OutOfRange { value: it.volume, min: 0u8, max: 100u8 },
        )
    }
}

/// The error of `from_schedule_items` is the first bad entry's, with every
/// entry before it good.
pub open spec fn is_first_item_error(items: Seq<ScheduleItem>, i: int, e: ScheduleError) -> bool {
    &&& 0 <= i < items.len()
    &&& !item_parses(items[i])
    &&& forall|j: int| 0 <= j < i ==> item_parses(#[trigger] items[j])
    &&& is_item_error(items[i], e)
}

/// The targets with a given time of day, in their order in the list.
pub open spec fn targets_at(s: Seq<Target>, m: int) -> Seq<Target>
    decreases s.len(),
{
    if s.len() == 0 {
        Seq::empty()
    } else if s.last().time.minute_of_day() == m {
        targets_at(s.drop_last(), m).push(s.last())
    } else {
        targets_at(s.drop_last(), m)
    }
}

proof fn lemma_targets_at_push(s: Seq<Target>, x: Target, m: int)
    ensures
        targets_at(s.push(x), m) == if x.time.minute_of_day() == m {
            targets_at(s, m).push(x)
        } else {
            targets_at(s, m)
        },
{
    assert(s.push(x).drop_last() =~= s);
    assert(s.push(x).last() == x);
}

proof fn lemma_targets_at_add(s1: Seq<Target>, s2: Seq<Target>, m: int)
    ensures
        targets_at(s1 + s2, m) == targets_at(s1, m) + targets_at(s2, m),
    decreases s2.len(),
{
    if s2.len() == 0 {
        assert(s1 + s2 =~= s1);
        assert(targets_at(s1, m) + targets_at(s2, m) =~= targets_at(s1, m));
    } else {
        lemma_targets_at_add(s1, s2.drop_last(), m);
        assert((s1 + s2).drop_last() =~= s1 + s2.drop_last());
        assert((s1 + s2).last() == s2.last());
        assert(s2.drop_last().push(s2.last()) =~= s2);
        lemma_targets_at_push(s2.drop_last(), s2.last(), m);
        if s2.last().time.minute_of_day() == m {
            assert(targets_at(s1, m) + targets_at(s2.drop_last(), m).push(s2.last())
                =~= (targets_at(s1, m) + targets_at(s2.drop_last(), m)).push(s2.last()));
        }
    }
}

proof fn lemma_targets_at_none(s: Seq<Target>, m: int)
    requires
        forall|i: int| 0 <= i < s.len() ==> #[trigger] s[i].time.minute_of_day() != m,
    ensures
        targets_at(s, m) == Seq::<Target>::empty(),
    decreases s.len(),
{
    if s.len() > 0 {
        assert(forall|i: int|
            0 <= i < s.drop_last().len() ==> #[trigger] s.drop_last()[i].time.minute_of_day()
                != m);
        lemma_targets_at_none(s.drop_last(), m);
        assert(s.last().time.minute_of_day() != m);
    }
}

/// The ramp duration in milliseconds that a configured duration in
/// seconds denotes, saturating at the largest representable duration.
pub open spec fn ramp_ms_of(seconds: int) -> int {
    if seconds * 1000 <= u64::MAX {
        seconds * 1000
    } else {
        u64::MAX as int
    }
}

/// An ordered set of targets and the uniform pre-ramp duration, built once
/// from configuration and then only queried.
pub struct Schedule {
    targets: Vec<Target>,
    ramp_duration: u64,
}

impl Schedule {
    /// The targets, in order.
    pub closed spec fn spec_targets(&self) -> Seq<Target> {
        self.targets@
    }

    /// The pre-ramp duration in milliseconds.
    pub closed spec fn spec_ramp_ms(&self) -> int {
        self.ramp_duration as int
    }

    /// Every target valid and the list sorted by time of day.
    pub open spec fn wf(&self) -> bool {
        &&& targets_sorted(self.spec_targets())
        &&& forall|i: int|
            0 <= i < self.spec_targets().len() ==> target_wf(#[trigger] self.spec_targets()[i])
    }

    /// Creates an empty schedule with the default one-minute pre-ramp.
    pub fn new() -> (r: Schedule)
        ensures
            r.spec_targets().len() == 0,
            r.spec_ramp_ms() == 60_000,
            r.wf(),
    {
        Schedule { targets: Vec::new(), ramp_duration: 60_000 }
    }

    /// The targets, for callers that want to inspect the order.
    pub fn targets(&self) -> (r: &Vec<Target>)
        ensures
            r@ == self.spec_targets(),
    {
        &self.targets
    }

    /// Creates a schedule from raw entries: every entry is parsed against
    /// the strict `HH:MM` grammar and the level range, one bad entry fails
    /// the whole construction, and the parsed targets are sorted by time
    /// of day (equal times keep their relative order).
    pub fn from_schedule_items(targets: Vec<ScheduleItem>, ramp_duration_seconds: u64) -> (r:
        Result<Schedule, ScheduleError>)
        ensures
            (forall|k: int| 0 <= k < targets@.len() ==> item_parses(#[trigger] targets@[k])) <==> r
                is Ok,
            (r matches Ok(s) ==> {
                &&& s.wf()
                &&& s.spec_ramp_ms() == ramp_ms_of(ramp_duration_seconds as int)
                &&& s.spec_targets().len() == targets@.len()
                &&& s.spec_targets().to_multiset() == targets@.map_values(
                    |it: ScheduleItem| target_of(it),
                ).to_multiset()
                &&& forall|m: int|
                    #[trigger] targets_at(s.spec_targets(), m) == targets_at(
                        targets@.map_values(|it: ScheduleItem| target_of(it)),
                        m,
                    )
            }),
            (r matches Err(e) ==> exists|i: int| is_first_item_error(targets@, i, e)),
    {
        broadcast use group_to_multiset_ensures;
        broadcast use vstd::seq_lib::to_multiset_insert;

        let ghost models: Seq<Target> = targets@.map_values(|it: ScheduleItem| target_of(it));
        let mut parsed: Vec<Target> = Vec::new();
        let mut i: usize = 0;
        while i < targets.len()
            invariant
                0 <= i <= targets@.len(),
                models == targets@.map_values(|it: ScheduleItem| target_of(it)),
                parsed@.len() == i,
                forall|k: int| 0 <= k < i ==> item_parses(#[trigger] targets@[k]),
                forall|k: int| 0 <= k < i ==> parsed@[k] == models[k],
                forall|k: int| 0 <= k < i ==> target_wf(#[trigger] parsed@[k]),
            decreases targets@.len() - i,
        {
            let item = &targets[i];
            let tod = match TimeOfDay::parse_hhmm(item.time.as_str()) {
                Some(t) => t,
                None => {
                    let e = ScheduleError::UnparsedTime(item.time.clone());
                    assert(is_first_item_error(targets@, i as int, e));
                    return Err(e);
                },
            };
            let level = match Percentage::new(item.volume) {
                Ok(p) => p,
                Err(pe) => {
                    let e = ScheduleError::UnparsedVolume(pe);
                    assert(is_first_item_error(targets@, i as int, e));
                    return Err(e);
                },
            };
            parsed.push(Target { desired_sound: level, time: tod });
            i = i + 1;
        }
        assert(parsed@ =~= models);
        // Stable insertion sort by time of day: each target goes in front
        // of the first strictly later one.
        let mut in_order: Vec<Target> = Vec::new();
        let mut j: usize = 0;
        while j < parsed.len()
            invariant
                0 <= j <= parsed@.len(),
                in_order@.len() == j,
                targets_sorted(in_order@),
                in_order@.to_multiset() == parsed@.subrange(0, j as int).to_multiset(),
                forall|m: int|
                    #[trigger] targets_at(in_order@, m) == targets_at(
                        parsed@.subrange(0, j as int),
                        m,
                    ),
                forall|k: int| 0 <= k < parsed@.len() ==> target_wf(#[trigger] parsed@[k]),
                forall|k: int| 0 <= k < in_order@.len() ==> target_wf(#[trigger] in_order@[k]),
            decreases parsed@.len() - j,
        {
            let t = parsed[j];
            let key = t.time.minutes();
            let mut pos: usize = 0;
            while pos < in_order.len() && in_order[pos].time.minutes() <= key
                invariant
                    0 <= pos <= in_order@.len(),
                    key == t.time.minute_of_day(),
                    forall|k: int|
                        0 <= k < pos ==> #[trigger] in_order@[k].time.minute_of_day()
                            <= t.time.minute_of_day(),
                decreases in_order@.len() - pos,
            {
                pos = pos + 1;
            }
            proof {
                assert(parsed@.subrange(0, j as int + 1) =~= parsed@.subrange(0, j as int).push(
                    parsed@[j as int],
                ));
            }
            let ghost before = in_order@;
            in_order.insert(pos, t);
            proof {
                assert(in_order@ =~= before.insert(pos as int, t));
                assert(in_order@.to_multiset() == before.insert(pos as int, t).to_multiset());
                vstd::seq_lib::to_multiset_insert(before, pos as int, t);
                assert(parsed@.subrange(0, j as int + 1).to_multiset() == parsed@.subrange(
                    0,
                    j as int,
                ).push(parsed@[j as int]).to_multiset());
                vstd::seq_lib::to_multiset_build(parsed@.subrange(0, j as int), parsed@[j as int]);
                assert forall|x: int, y: int| 0 <= x < y < in_order@.len() implies #[trigger] in_order@[
                    x
                ].time.minute_of_day() <= #[trigger] in_order@[y].time.minute_of_day() by {
                    if y < pos {
                    } else if x >= pos + 1 {
                    } else if x == pos && y > pos {
                        assert(in_order@[y] == before[y - 1]);
                        assert(before[pos as int].time.minute_of_day()
                            <= before[y - 1].time.minute_of_day());
                    } else if y == pos {
                        assert(in_order@[x] == before[x]);
                    } else {
                        assert(x < pos && y > pos);
                        assert(in_order@[x] == before[x]);
                        assert(in_order@[y] == before[y - 1]);
                    }
                }
                // Stability: entries sharing a time of day keep their
                // relative order, since `t` lands after every entry with
                // its own time and before only strictly later ones.
                let b0 = before.subrange(0, pos as int);
                let b1 = before.subrange(pos as int, before.len() as int);
                assert(before =~= b0 + b1);
                assert(in_order@ =~= b0 + (seq![t] + b1));
                assert(seq![t] =~= Seq::<Target>::empty().push(t));
                assert forall|m: int| #[trigger] targets_at(in_order@, m) == targets_at(
                    parsed@.subrange(0, j as int + 1),
                    m,
                ) by {
                    lemma_targets_at_add(b0, seq![t] + b1, m);
                    lemma_targets_at_add(seq![t], b1, m);
                    lemma_targets_at_push(Seq::<Target>::empty(), t, m);
                    lemma_targets_at_add(b0, b1, m);
                    lemma_targets_at_push(parsed@.subrange(0, j as int), parsed@[j as int], m);
                    if m == t.time.minute_of_day() {
                        assert forall|q: int| 0 <= q < b1.len() implies #[trigger] b1[
                            q
                        ].time.minute_of_day() != m by {
                            assert(b1[q] == before[pos + q]);
                            assert(before[pos as int].time.minute_of_day()
                                > t.time.minute_of_day());
                            assert(before[pos as int].time.minute_of_day() <= before[pos
                                + q].time.minute_of_day());
                        }
                        lemma_targets_at_none(b1, m);
                        assert(targets_at(seq![t] + b1, m) =~= seq![t]);
                        assert(targets_at(in_order@, m) =~= targets_at(before, m).push(t));
                        assert(targets_at(parsed@.subrange(0, j as int + 1), m) =~= targets_at(
                            parsed@.subrange(0, j as int),
                            m,
                        ).push(t));
                    } else {
                        assert(targets_at(seq![t] + b1, m) =~= targets_at(b1, m));
                        assert(targets_at(in_order@, m) =~= targets_at(before, m));
                        assert(targets_at(parsed@.subrange(0, j as int + 1), m) =~= targets_at(
                            parsed@.subrange(0, j as int),
                            m,
                        ));
                    }
                }
            }
            j = j + 1;
        }
        assert(parsed@.subrange(0, parsed@.len() as int) =~= parsed@);
        assert(in_order@.to_multiset() == parsed@.to_multiset());
        assert(parsed@.to_multiset() == models.to_multiset());
        assert forall|m: int| #[trigger] targets_at(in_order@, m) == targets_at(models, m) by {
            assert(targets_at(in_order@, m) == targets_at(
                parsed@.subrange(0, parsed@.len() as int),
                m,
            ));
        }
        let ramp_duration: u64 = if ramp_duration_seconds <= 18_446_744_073_709_551u64 {
            ramp_duration_seconds * 1000
        } else {
            u64::MAX
        };
        Ok(Schedule { targets: in_order, ramp_duration })
    }

    /// Whether an invocation is the one a schedule hands out: some
    /// target's level, the schedule's ramp duration, and a deadline not
    /// before the current monotonic instant.
    pub open spec fn is_invocation_of(&self, inv: Invocation, mono_now_ms: int) -> bool {
        &&& exists|i: int|
            0 <= i < self.spec_targets().len() && inv.desired_sound == #[trigger] self.spec_targets()[
                i
            ].desired_sound
        &&& inv.ramp_duration == self.spec_ramp_ms()
        &&& inv.time >= mono_now_ms
    }

    /// The full content of a successful query: `occs` holds one occurrence
    /// instant per target, each as `next_occurrence_local` promises it;
    /// the winner `i` is the stable first minimum (no occurrence below it,
    /// none before it as low); and the invocation carries the winner's
    /// level, the configured ramp, and the deadline
    /// `mono_now + max(occs[i] - now, 0)`, the winner's wall-clock
    /// distance carried over to the monotonic clock.
    pub open spec fn is_next_invocation(
        &self,
        now: LocalInstant,
        mono_now_ms: int,
        inv: Invocation,
        occs: Seq<int>,
        i: int,
    ) -> bool {
        &&& occs.len() == self.spec_targets().len()
        &&& forall|k: int|
            0 <= k < occs.len() ==> occurrence_result(
                self.spec_targets()[k].time,
                now,
                #[trigger] occs[k],
            )
        &&& 0 <= i < occs.len()
        &&& forall|k: int| 0 <= k < occs.len() ==> occs[i] <= #[trigger] occs[k]
        &&& forall|k: int| 0 <= k < i ==> occs[i] < #[trigger] occs[k]
        &&& inv.desired_sound == self.spec_targets()[i].desired_sound
        &&& inv.ramp_duration == self.spec_ramp_ms()
        &&& inv.time == mono_now_ms + (if occs[i] > now.utc_ms {
            occs[i] - now.utc_ms
        } else {
            0
        })
    }

    /// A successful query hands out an invocation with full content for
    /// some per-target occurrence instants and stable first-minimum
    /// winner.
    pub open spec fn hands_out(&self, now: LocalInstant, mono_now_ms: int, inv: Invocation) -> bool {
        exists|occs: Seq<int>, i: int|
            #[trigger] self.is_next_invocation(now, mono_now_ms, inv, occs, i)
    }

    /// The next invocation, judged from the given local wall-clock instant
    /// and the given monotonic-clock reading: nothing exactly when the
    /// schedule is empty; otherwise the target whose next occurrence comes
    /// first (the earliest-listed one on a tie), with its occurrence
    /// distance from `now` carried over to the monotonic clock.
    pub fn get_next_at(&self, now: &LocalInstant, mono_now_ms: u64) -> (r: Option<Invocation>)
        requires
            self.wf(),
            0 <= now.day <= MAX_DAY,
            -MAX_ABS_MS <= now.utc_ms <= MAX_ABS_MS,
            mono_now_ms <= 0x4000_0000_0000_0000u64,
        ensures
            r is None <==> self.spec_targets().len() == 0,
            (r matches Some(inv) ==> self.hands_out(*now, mono_now_ms as int, inv)),
            (r matches Some(inv) ==> self.is_invocation_of(inv, mono_now_ms as int)),
    {
        if self.targets.len() == 0 {
            return None;
        }
        let mut best_i: usize = 0;
        let mut best_ms: i64 = next_occurrence_local(self.targets[0].time, now);
        let ghost mut occs: Seq<int> = seq![best_ms as int];
        let mut i: usize = 1;
        while i < self.targets.len()
            invariant
                self.wf(),
                0 <= now.day <= MAX_DAY,
                1 <= i <= self.spec_targets().len(),
                0 <= best_i < i,
                occs.len() == i,
                forall|k: int|
                    0 <= k < i ==> occurrence_result(
                        self.spec_targets()[k].time,
                        *now,
                        #[trigger] occs[k],
                    ),
                best_ms as int == occs[best_i as int],
                forall|k: int| 0 <= k < i ==> occs[best_i as int] <= #[trigger] occs[k],
                forall|k: int| 0 <= k < best_i ==> occs[best_i as int] < #[trigger] occs[k],
                -MAX_ABS_MS <= best_ms <= MAX_ABS_MS,
            decreases self.spec_targets().len() - i,
        {
            let occ = next_occurrence_local(self.targets[i].time, now);
            proof {
                occs = occs.push(occ as int);
            }
            if occ < best_ms {
                best_i = i;
                best_ms = occ;
            }
            i = i + 1;
        }
        let delta: i64 = best_ms - now.utc_ms;
        let delta_u: u64 = if delta > 0 {
            delta as u64
        } else {
            0
        };
        let deadline: u64 = mono_now_ms + delta_u;
        let inv = Invocation {
            desired_sound: self.targets[best_i].desired_sound,
            time: deadline,
            ramp_duration: self.ramp_duration,
        };
        proof {
            assert(self.is_next_invocation(*now, mono_now_ms as int, inv, occs, best_i as int));
            assert(self.hands_out(*now, mono_now_ms as int, inv));
            assert(inv.desired_sound == self.spec_targets()[best_i as int].desired_sound);
        }
        Some(inv)
    }
}

impl TimeOfDay {
    /// The time as a minute count from midnight, the sort key of a
    /// schedule, as an executable value.
    pub fn minutes(&self) -> (r: u16)
        ensures
            r == self.minute_of_day(),
    {
        (self.hour as u16) * 60 + (self.minute as u16)
    }
}

} // verus!
