use crate::volume::percentage::{Percentage, PercentageError};
use crate::volume::ramp::{lemma_ramp_value_bounds, lemma_ramp_value_monotone, ramp_value, VolumeRamp};
use vstd::prelude::*;

verus! {

/// Why an actuator interaction failed. The worker never retries: each of
/// these is fatal to the invocation it arose in.
#[derive(Debug)]
pub enum VolumeError {
    /// The actuator command could not be started at all.
    Spawn { message: String },
    /// The actuator command ran and exited with a non-zero status.
    Pactl { status: i32, stderr: String },
    /// The actuator's report held no readable percentage token.
    Unparsed { output: Vec<u8> },
    /// A level fell outside the valid range.
    Percentage(PercentageError),
    /// The task running the actuator command was lost.
    Threading { message: String },
}

/// An ASCII decimal digit.
pub open spec fn is_digit_byte(b: u8) -> bool {
    48 <= b <= 57
}

/// A percentage token of exactly `k` digits starts at `i`: `k` digits
/// followed by `'%'`.
pub open spec fn pct_match_k(s: Seq<u8>, i: int, k: int) -> bool {
    &&& 1 <= k <= 3
    &&& 0 <= i
    &&& i + k < s.len()
    &&& s[i + k] == 37u8
    &&& forall|j: int| i <= j < i + k ==> is_digit_byte(#[trigger] s[j])
}

/// A percentage token of one to three digits starts at `i`.
pub open spec fn pct_match_at(s: Seq<u8>, i: int) -> bool {
    exists|k: int| pct_match_k(s, i, k)
}

/// The first position holding a percentage token.
pub open spec fn leftmost_pct(s: Seq<u8>, i: int) -> bool {
    pct_match_at(s, i) && forall|i2: int| 0 <= i2 < i ==> !pct_match_at(s, i2)
}

/// The token at a match position takes as many digits as it can, up to
/// three.
pub open spec fn greedy_len(s: Seq<u8>, i: int) -> int {
    if pct_match_k(s, i, 3) {
        3
    } else if pct_match_k(s, i, 2) {
        2
    } else {
        1
    }
}

/// The numeric value of `k` digits starting at `i`.
pub open spec fn digits_value(s: Seq<u8>, i: int, k: int) -> int {
    if k == 1 {
        s[i] - 48
    } else if k == 2 {
        (s[i] - 48) * 10 + (s[i + 1] - 48)
    } else {
        (s[i] - 48) * 100 + (s[i + 1] - 48) * 10 + (s[i + 2] - 48)
    }
}

/// The value of the token at a match position.
pub open spec fn pct_value_at(s: Seq<u8>, i: int) -> int {
    digits_value(s, i, greedy_len(s, i))
}

/// Scans a textual actuator report for its first percentage token: one to
/// three digits directly followed by `'%'`, the earliest such token, read
/// with as many digits as stand there.
pub fn scan_percent_value(s: &Vec<u8>) -> (r: Option<u16>)
    ensures
        r is Some <==> exists|i: int| pct_match_at(s@, i),
        (r matches Some(v) ==> exists|i: int|
            #[trigger] leftmost_pct(s@, i) && v == pct_value_at(s@, i) && 0 <= v <= 999),
{
    let n = s.len();
    let mut i: usize = 0;
    while i < n
        invariant
            0 <= i <= n,
            n == s@.len(),
            forall|i2: int| 0 <= i2 < i ==> !pct_match_at(s@, i2),
        decreases n - i,
    {
        // Count the digits standing at `i`, up to three.
        let mut d: usize = 0;
        while d < 3 && n - i > d && 48 <= s[i + d] && s[i + d] <= 57
            invariant
                0 <= d <= 3,
                n == s@.len(),
                0 <= i < n,
                i + d <= n,
                forall|j: int| i <= j < i + d ==> is_digit_byte(#[trigger] s@[j]),
            decreases 3 - d,
        {
            d = d + 1;
        }
        assert(d == 3 || n - i <= d || !is_digit_byte(s@[i + d]));
        // Longest token first: try each digit count from `d` down.
        let mut k: usize = d;
        while k >= 1
            invariant
                0 <= k <= d <= 3,
                n == s@.len(),
                0 <= i < n,
                i + d <= n,
                forall|j: int| i <= j < i + d ==> is_digit_byte(#[trigger] s@[j]),
                d == 3 || n - i <= d || !is_digit_byte(s@[i + d]),
                forall|k2: int| k < k2 <= 3 ==> !pct_match_k(s@, i as int, k2),
                forall|i2: int| 0 <= i2 < i ==> !pct_match_at(s@, i2),
            decreases k,
        {
            if n - i > k && s[i + k] == 37 {
                let v: u16 = if k == 1 {
                    (s[i] - 48) as u16
                } else if k == 2 {
                    (s[i] - 48) as u16 * 10 + (s[i + 1] - 48) as u16
                } else {
                    (s[i] - 48) as u16 * 100 + (s[i + 1] - 48) as u16 * 10 + (s[i + 2] - 48) as u16
                };
                proof {
                    assert(pct_match_k(s@, i as int, k as int));
                    assert(greedy_len(s@, i as int) == k as int);
                    assert(leftmost_pct(s@, i as int));
                }
                return Some(v);
            }
            k = k - 1;
        }
        proof {
            assert forall|k2: int| 1 <= k2 <= 3 implies !pct_match_k(s@, i as int, k2) by {
                if k2 > d {
                    if pct_match_k(s@, i as int, k2) {
                        assert(is_digit_byte(s@[i + d]));
                    }
                }
            }
            assert(!pct_match_at(s@, i as int));
        }
        i = i + 1;
    }
    proof {
        assert forall|i2: int| !pct_match_at(s@, i2) by {
            if 0 <= i2 < n {
            } else {
                if pct_match_at(s@, i2) {
                    let k2 = choose|k2: int| pct_match_k(s@, i2, k2);
                    assert(i2 + k2 < s@.len());
                }
            }
        }
    }
    None
}

/// What interpreting a get-report yields for a given leftmost token value:
/// a valid level, a level validation error, or a parse failure for a
/// value no percentage can hold.
pub open spec fn level_of_token(v: int, output: Seq<u8>, r: Result<Percentage, VolumeError>) -> bool {
    if v <= 100 {
        r matches Ok(p) && p@ == v
    } else if v <= 255 {
        r == Result::<Percentage, VolumeError>::Err(
            VolumeError::Percentage(
                PercentageError::OutOfRange { value: v as u8, min: 0u8, max: 100u8 },
            ),
        )
    } else {
        r matches Err(VolumeError::Unparsed { output: o }) && o@ == output
    }
}

/// Reads the actuator's answer to a get-level command. A failed command
/// is reported with its status and diagnostic text; a successful one has
/// its first percentage token extracted and validated as a level; a
/// report without a usable token is a parse failure.
pub fn interpret_get_report(success: bool, status: i32, stdout: Vec<u8>, stderr: String) -> (r:
    Result<Percentage, VolumeError>)
    ensures
        !success ==> r == Result::<Percentage, VolumeError>::Err(
            VolumeError::Pactl { status, stderr },
        ),
        success && !(exists|i: int| pct_match_at(stdout@, i)) ==> (r matches Err(
            VolumeError::Unparsed { output: o },
        ) && o@ == stdout@),
        success ==> forall|i: int|
            #[trigger] leftmost_pct(stdout@, i) ==> level_of_token(
                pct_value_at(stdout@, i),
                stdout@,
                r,
            ),
{
    if !success {
        return Err(VolumeError::Pactl { status, stderr });
    }
    match scan_percent_value(&stdout) {
        None => Err(VolumeError::Unparsed { output: stdout }),
        Some(v) => {
            if v <= 255 {
                match Percentage::new(v as u8) {
                    Ok(p) => {
                        proof {
                            lemma_leftmost_unique(stdout@);
                        }
                        Ok(p)
                    },
                    Err(pe) => {
                        proof {
                            lemma_leftmost_unique(stdout@);
                        }
                        Err(VolumeError::Percentage(pe))
                    },
                }
            } else {
                proof {
                    lemma_leftmost_unique(stdout@);
                }
                Err(VolumeError::Unparsed { output: stdout })
            }
        },
    }
}

/// Two leftmost match positions coincide.
proof fn lemma_leftmost_unique(s: Seq<u8>)
    ensures
        forall|i1: int, i2: int|
            #[trigger] leftmost_pct(s, i1) && #[trigger] leftmost_pct(s, i2) ==> i1 == i2,
{
    assert forall|i1: int, i2: int|
        #[trigger] leftmost_pct(s, i1) && #[trigger] leftmost_pct(s, i2) implies i1 == i2 by {
        if i1 < i2 {
            assert(!pct_match_at(s, i1));
        }
        if i2 < i1 {
            assert(!pct_match_at(s, i2));
        }
    }
}

/// Reads the actuator's answer to a set-level command: success passes,
/// failure is reported with its status and diagnostic text.
pub fn interpret_set_result(success: bool, status: i32, stderr: String) -> (r: Result<
    (),
    VolumeError,
>)
    ensures
        success <==> r is Ok,
        !success ==> r == Result::<(), VolumeError>::Err(VolumeError::Pactl { status, stderr }),
{
    if success {
        Ok(())
    } else {
        Err(VolumeError::Pactl { status, stderr })
    }
}

/// One polling step's decision: the level to push now, if any, and
/// whether the deadline has been reached.
#[derive(Debug, Clone, Copy, PartialEq, Eq, Structural)]
pub struct TickPlan {
    pub push: Option<u8>,
    pub finished: bool,
}

/// Decides one polling step of the ramp loop: compute the eased level for
/// this instant, push it only if it differs from the last level pushed
/// (the very first step always pushes), and report whether the deadline
/// has been reached, upon which the caller pushes the exact target once
/// more and settles.
pub fn ramp_tick(ramp: &VolumeRamp, last_set: Option<u8>, now: u64) -> (r: TickPlan)
    requires
        ramp.wf(),
    ensures
        r.finished == (now as int >= ramp@.end),
        ({
            let v = ramp_value(ramp@, now as int);
            &&& (last_set == Some(v as u8) ==> r.push is None)
            &&& (last_set != Some(v as u8) ==> r.push == Some(v as u8))
        }),
{
    let v = ramp.value_at(now);
    let push = match last_set {
        Some(l) => if l == v {
            None
        } else {
            Some(v)
        },
        None => Some(v),
    };
    TickPlan { push, finished: now >= ramp.end() }
}

/// The pushed levels are monotone: each later sample pushes a level no
/// farther from the target than an earlier one.
pub open spec fn seq_monotone_for(r: Seq<u8>, upward: bool) -> bool {
    forall|a: int, b: int|
        0 <= a < b < r.len() ==> (if upward {
            #[trigger] r[a] <= #[trigger] r[b]
        } else {
            r[b] <= r[a]
        })
}

/// The worker's push sequence, as a pure function of the ramp and the
/// sampled instants: walk the samples in order, pushing each changed
/// level, and at the first sample at or past the deadline push the exact
/// target once more and stop. States what the polling loop guarantees:
/// the first sample is always pushed, the sequence moves monotonically
/// toward the target, and it ends exactly at the target.
pub fn simulate_pushes(ramp: &VolumeRamp, ticks: &Vec<u64>) -> (r: Vec<u8>)
    requires
        ramp.wf(),
        ticks@.len() > 0,
        forall|a: int, b: int| 0 <= a < b < ticks@.len() ==> #[trigger] ticks@[a] <= #[trigger] ticks@[b],
        ticks@[ticks@.len() - 1] >= ramp@.end,
    ensures
        r@.len() >= 2,
        r@[0] as int == ramp_value(ramp@, ticks@[0] as int),
        r@[r@.len() - 1] as int == ramp@.to,
        ramp@.from <= ramp@.to ==> seq_monotone_for(r@, true),
        ramp@.to <= ramp@.from ==> seq_monotone_for(r@, false),
{
    let mut out: Vec<u8> = Vec::new();
    let mut last_set: Option<u8> = None;
    let mut t: usize = 0;
    while t < ticks.len()
        invariant
            ramp.wf(),
            0 <= t <= ticks@.len(),
            forall|a: int, b: int|
                0 <= a < b < ticks@.len() ==> #[trigger] ticks@[a] <= #[trigger] ticks@[b],
            ticks@.len() > 0,
            ticks@[ticks@.len() - 1] >= ramp@.end,
            forall|k: int| 0 <= k < t ==> (#[trigger] ticks@[k] as int) < ramp@.end,
            t == 0 ==> out@.len() == 0 && last_set is None,
            t > 0 ==> {
                &&& out@.len() >= 1
                &&& out@[0] as int == ramp_value(ramp@, ticks@[0] as int)
                &&& out@[out@.len() - 1] as int == ramp_value(ramp@, ticks@[t - 1] as int)
                &&& last_set == Some(out@[out@.len() - 1])
            },
            ramp@.from <= ramp@.to ==> seq_monotone_for(out@, true),
            ramp@.to <= ramp@.from ==> seq_monotone_for(out@, false),
        decreases ticks@.len() - t,
    {
        let now = ticks[t];
        let plan = ramp_tick(ramp, last_set, now);
        proof {
            lemma_ramp_value_bounds(ramp@, now as int);
            if t > 0 {
                lemma_ramp_value_monotone(ramp@, ticks@[t - 1] as int, now as int);
            }
        }
        match plan.push {
            Some(v) => {
                out.push(v);
                last_set = Some(v);
            },
            None => {},
        }
        if plan.finished {
            proof {
                lemma_ramp_value_bounds(ramp@, now as int);
            }
            out.push(ramp.target());
            return out;
        }
        t = t + 1;
    }
    proof {
        assert((ticks@[ticks@.len() - 1] as int) < ramp@.end);
        assert(false);
    }
    out
}

} // verus!
