use vstd::prelude::*;

verus! {

/// The characters `parse_str` trims from either end: the Unicode
/// `White_Space` set, as `str::trim` removes.
pub open spec fn is_space_char(c: char) -> bool {
    let u = c as int;
    ||| (9 <= u <= 13)
    ||| u == 32
    ||| u == 0x85
    ||| u == 0xa0
    ||| u == 0x1680
    ||| (0x2000 <= u <= 0x200a)
    ||| u == 0x2028
    ||| u == 0x2029
    ||| u == 0x202f
    ||| u == 0x205f
    ||| u == 0x3000
}

/// An ASCII decimal digit.
pub open spec fn is_digit_char(c: char) -> bool {
    48 <= c as int <= 57
}

/// `a` and `b` delimit the trimmed middle of `s`: only whitespace before
/// `a` and from `b` on, and a non-space at each boundary when anything is
/// left.
pub open spec fn trimmed_at(s: Seq<char>, a: int, b: int) -> bool {
    &&& 0 <= a <= b <= s.len()
    &&& forall|j: int| 0 <= j < a ==> is_space_char(#[trigger] s[j])
    &&& forall|j: int| b <= j < s.len() ==> is_space_char(#[trigger] s[j])
    &&& (a < b ==> !is_space_char(s[a]) && !is_space_char(s[b - 1]))
    &&& (a == b ==> a == s.len())
}

/// The digits of `t`, read as a decimal number.
pub open spec fn digits_val(t: Seq<char>) -> int
    decreases t.len(),
{
    if t.len() == 0 {
        0
    } else {
        digits_val(t.drop_last()) * 10 + (t[t.len() - 1] as int - 48)
    }
}

/// Every character of `t` is a digit.
pub open spec fn all_digits(t: Seq<char>) -> bool {
    forall|j: int| 0 <= j < t.len() ==> is_digit_char(#[trigger] t[j])
}

/// The grammar `u8` values are read with: an optional leading `+`, then
/// at least one digit.
pub open spec fn u8_shape(t: Seq<char>) -> bool {
    if t.len() >= 1 && t[0] == '+' {
        t.len() >= 2 && all_digits(t.drop_first())
    } else {
        t.len() >= 1 && all_digits(t)
    }
}

/// The number a well-shaped string denotes.
pub open spec fn u8_str_val(t: Seq<char>) -> int {
    if t.len() >= 1 && t[0] == '+' {
        digits_val(t.drop_first())
    } else {
        digits_val(t)
    }
}

/// A whole string parses as a `u8`: right shape and a value that fits.
pub open spec fn parses_as_u8(t: Seq<char>) -> bool {
    u8_shape(t) && u8_str_val(t) <= 255
}

/// What `parse_str` returns for a given trimmed input `t`: the validated
/// level for a number in range, a range error for a number beyond 100,
/// and a parse error carrying the trimmed text for everything else.
pub open spec fn parse_outcome(t: Seq<char>, r: Result<Percentage, PercentageError>) -> bool {
    if parses_as_u8(t) {
        if u8_str_val(t) <= 100 {
            r matches Ok(p) && p@ == u8_str_val(t)
        } else {
            r == Result::<Percentage, PercentageError>::Err(
                PercentageError::OutOfRange { value: u8_str_val(t) as u8, min: 0u8, max: 100u8 },
            )
        }
    } else {
        r matches Err(PercentageError::ParseFailed { invalid_str }) && invalid_str@ == t
    }
}

/// A string has exactly one pair of trim bounds, so the outcome that
/// `parse_str` promises for "the" trimmed middle of its input is
/// completely determined.
pub proof fn lemma_trimmed_unique(s: Seq<char>, a1: int, b1: int, a2: int, b2: int)
    requires
        trimmed_at(s, a1, b1),
        trimmed_at(s, a2, b2),
    ensures
        a1 == a2,
        b1 == b2,
{
    if a1 < a2 {
        assert(is_space_char(s[a1]));
        assert(a1 == b1);
    }
    if a2 < a1 {
        assert(is_space_char(s[a2]));
        assert(a2 == b2);
    }
    if b1 < b2 {
        assert(is_space_char(s[b2 - 1]));
        assert(a2 == b2);
    }
    if b2 < b1 {
        assert(is_space_char(s[b1 - 1]));
        assert(a1 == b1);
    }
}

/// A validated actuator level: an integer in 0..=100 percent. Out-of-range
/// values are rejected at construction, never clamped silently.
#[derive(Debug, Clone, Copy, PartialEq, Eq, Structural)]
pub struct Percentage(u8);

/// Why a value was refused as a `Percentage`.
#[derive(Debug, Clone)]
pub enum PercentageError {
    OutOfRange { value: u8, min: u8, max: u8 },
    ParseFailed { invalid_str: String },
}

impl View for Percentage {
    type V = int;

    closed spec fn view(&self) -> int {
        self.0 as int
    }
}

impl Percentage {
    /// Every constructed value satisfies this bound.
    pub open spec fn wf(self) -> bool {
        0 <= self@ <= 100
    }

    /// The value `new` yields for an accepted input, at the spec level.
    pub closed spec fn spec_from(value: u8) -> Percentage {
        Percentage(value)
    }

    fn validate(value: u8) -> (r: Result<(), PercentageError>)
        ensures
            value <= 100 <==> r is Ok,
            value > 100 ==> r == Result::<(), PercentageError>::Err(PercentageError::OutOfRange {
                value,
                min: 0u8,
                max: 100u8,
            }),
    {
        if value <= 100 {
            Ok(())
        } else {
            Err(PercentageError::OutOfRange { value, min: 0, max: 100 })
        }
    }

    /// Accepts exactly the values 0..=100.
    pub fn new(value: u8) -> (r: Result<Self, PercentageError>)
        ensures
            value <= 100 <==> r is Ok,
            value <= 100 ==> (r matches Ok(p) && p == Percentage::spec_from(value) && p@ == value
                && p.wf()),
            value > 100 ==> r == Result::<Self, PercentageError>::Err(PercentageError::OutOfRange {
                value,
                min: 0u8,
                max: 100u8,
            }),
    {
        Self::validate(value)?;
        Ok(Self(value))
    }

    /// The level as a plain integer.
    pub fn value(self) -> (r: u8)
        ensures
            r == self@,
    {
        self.0
    }

    /// Parses a level from text the way a plain `u8` is read: whitespace
    /// trimmed from both ends, an optional leading `+`, then decimal
    /// digits; the value is then held to the 0..=100 range.
    pub fn parse_str(s: &str) -> (r: Result<Percentage, PercentageError>)
        ensures
            exists|a: int, b: int|
                #[trigger] trimmed_at(s@, a, b) && parse_outcome(s@.subrange(a, b), r),
    {
        let n = s.unicode_len();
        let mut a: usize = 0;
        while a < n && is_space_exec(s.get_char(a))
            invariant
                0 <= a <= n,
                n == s@.len(),
                forall|j: int| 0 <= j < a ==> is_space_char(#[trigger] s@[j]),
            decreases n - a,
        {
            a = a + 1;
        }
        let mut b: usize = n;
        while b > a && is_space_exec(s.get_char(b - 1))
            invariant
                a <= b <= n,
                n == s@.len(),
                a < n ==> !is_space_char(s@[a as int]),
                forall|j: int| b <= j < n ==> is_space_char(#[trigger] s@[j]),
            decreases b,
        {
            b = b - 1;
        }
        proof {
            assert(trimmed_at(s@, a as int, b as int));
        }
        let ghost t = s@.subrange(a as int, b as int);
        if a == b {
            let r = Err(PercentageError::ParseFailed {
                invalid_str: s.substring_char(a, b).to_owned(),
            });
            assert(parse_outcome(t, r));
            return r;
        }
        let mut p: usize = a;
        if s.get_char(a) == '+' {
            p = a + 1;
        }
        if p == b {
            let r = Err(PercentageError::ParseFailed {
                invalid_str: s.substring_char(a, b).to_owned(),
            });
            assert(parse_outcome(t, r));
            return r;
        }
        let ghost digits = s@.subrange(p as int, b as int);
        proof {
            if p > a {
                assert(t.drop_first() =~= digits);
            } else {
                assert(t =~= digits);
            }
            assert(u8_shape(t) == all_digits(digits));
        }
        let mut acc: u32 = 0;
        let mut q: usize = p;
        while q < b
            invariant
                a <= p <= q <= b <= n,
                n == s@.len(),
                t == s@.subrange(a as int, b as int),
                trimmed_at(s@, a as int, b as int),
                digits == s@.subrange(p as int, b as int),
                u8_shape(t) == all_digits(digits),
                forall|j: int| p <= j < q ==> is_digit_char(#[trigger] s@[j]),
                acc <= 2559,
                digits_val(s@.subrange(p as int, q as int)) <= 255 ==> acc == digits_val(
                    s@.subrange(p as int, q as int),
                ),
                digits_val(s@.subrange(p as int, q as int)) > 255 ==> acc > 255,
            decreases b - q,
        {
            let c = s.get_char(q) as u32;
            if !(48 <= c && c <= 57) {
                let r = Err(PercentageError::ParseFailed {
                    invalid_str: s.substring_char(a, b).to_owned(),
                });
                proof {
                    assert(!all_digits(digits)) by {
                        assert(digits[q - p] == s@[q as int]);
                    }
                    assert(!u8_shape(t));
                    assert(parse_outcome(t, r));
                }
                return r;
            }
            let d: u32 = c - 48;
            let ghost prev = s@.subrange(p as int, q as int);
            acc = if acc > 255 {
                300
            } else {
                acc * 10 + d
            };
            q = q + 1;
            proof {
                let cur = s@.subrange(p as int, q as int);
                assert(cur.drop_last() =~= prev);
                assert(digits_val(cur) == digits_val(prev) * 10 + (s@[q - 1] as int - 48));
            }
        }
        proof {
            assert(s@.subrange(p as int, q as int) =~= digits);
            assert forall|j: int| 0 <= j < digits.len() implies is_digit_char(
                #[trigger] digits[j],
            ) by {
                assert(digits[j] == s@[p + j]);
            }
            assert(u8_shape(t));
            assert(u8_str_val(t) == digits_val(digits));
        }
        if acc > 255 {
            let r = Err(PercentageError::ParseFailed {
                invalid_str: s.substring_char(a, b).to_owned(),
            });
            assert(parse_outcome(t, r));
            return r;
        }
        let r = Self::new(acc as u8);
        assert(parse_outcome(t, r));
        r
    }
}

/// Whether a character counts as trimmable whitespace.
fn is_space_exec(c: char) -> (r: bool)
    ensures
        r == is_space_char(c),
{
    let u = c as u32;
    (9 <= u && u <= 13) || u == 32 || u == 0x85 || u == 0xa0 || u == 0x1680 || (0x2000 <= u && u
        <= 0x200a) || u == 0x2028 || u == 0x2029 || u == 0x202f || u == 0x205f || u == 0x3000
}

impl core::str::FromStr for Percentage {
    type Err = PercentageError;

    fn from_str(s: &str) -> Result<Self, Self::Err> {
        Percentage::parse_str(s)
    }
}

} // verus!
