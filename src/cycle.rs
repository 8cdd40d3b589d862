use crate::calendar::{chrono_year_of_day, day_number, days_before_year, lemma_year_length, day_order, is_valid_ymd, year_of_day, Date, MAX_DAY, MIN_DAY};
use crate::decimal::{lemma_zero_padded_two_digits, push_zero_padded, zero_padded};
use vstd::prelude::*;

verus! {

/// Length of every cycle, in days.
pub const CYCLE_DAYS: i32 = 28;

/// Day number of 2020-01-02, a day on which a cycle started.
pub const ANCHOR_DAY: i32 = 737426;

/// The anchor is the day number of 2020-01-02.
pub proof fn lemma_anchor_date()
    ensures
        ANCHOR_DAY == day_number(2020, 1, 2),
{
}

/// Day `s` is a whole number of cycles away from the anchor.
pub open spec fn is_cycle_start(s: int) -> bool {
    (s - ANCHOR_DAY) % (CYCLE_DAYS as int) == 0
}

/// Start of the cycle that contains day `t`.
pub open spec fn cycle_start_of(t: int) -> int {
    t - (t - ANCHOR_DAY) % (CYCLE_DAYS as int)
}

/// How many cycles in a row, going back from the one that starts on day `s`,
/// start in year `y` (and on a representable day).
pub open spec fn same_year_predecessors(y: int, s: int) -> nat
    decreases s - MIN_DAY,
{
    let p = s - CYCLE_DAYS;
    if p < MIN_DAY || year_of_day(p) != y {
        0
    } else {
        1 + same_year_predecessors(y, p)
    }
}

/// 1-based position of the cycle that starts on day `s` among the cycles
/// that start in the same year.
pub open spec fn sequence_number(s: int) -> nat {
    1 + same_year_predecessors(year_of_day(s), s)
}

/// The identifier of the cycle that starts on day `s`: the last two digits
/// of its year, then its sequence number, zero-padded to two digits.
pub open spec fn identifier_of(s: int) -> Seq<char> {
    zero_padded((year_of_day(s) % 100) as nat) + zero_padded(sequence_number(s))
}

/// One AIRAC cycle, named by the day on which it becomes effective.
#[derive(Clone, Copy, Debug, PartialEq, Eq, Structural, Ord)]
pub struct AIRAC {
    start: Date,
}

impl View for AIRAC {
    type V = int;

    /// Day number of the first day of the cycle.
    closed spec fn view(&self) -> int {
        self.start@
    }
}

/// Cycles are ordered as their start days.
impl PartialOrd for AIRAC {
    fn partial_cmp(&self, other: &AIRAC) -> (r: Option<core::cmp::Ordering>) {
        self.start.partial_cmp(&other.start)
    }
}

impl vstd::std_specs::cmp::PartialOrdSpecImpl for AIRAC {
    open spec fn obeys_partial_cmp_spec() -> bool {
        true
    }

    open spec fn partial_cmp_spec(&self, other: &AIRAC) -> Option<core::cmp::Ordering> {
        day_order(self@, other@)
    }
}

proof fn lemma_cycle_start_of_bounds(t: int)
    ensures
        cycle_start_of(t) <= t < cycle_start_of(t) + CYCLE_DAYS,
        is_cycle_start(cycle_start_of(t)),
{
}

proof fn lemma_start_of_aligned(s: int, t: int)
    requires
        is_cycle_start(s),
        s <= t < s + CYCLE_DAYS,
    ensures
        cycle_start_of(t) == s,
{
}

impl AIRAC {
    #[verifier::type_invariant]
    spec fn inv(self) -> bool {
        &&& is_cycle_start(self.start@)
        &&& MIN_DAY - CYCLE_DAYS <= self.start@ <= MAX_DAY
    }

    /// The cycle that is effective on the given date.
    pub fn from_ymd(y: i32, m: u32, d: u32) -> (r: AIRAC)
        requires
            is_valid_ymd(y as int, m as int, d as int),
        ensures
            r@ == cycle_start_of(day_number(y as int, m as int, d as int)),
            r@ <= day_number(y as int, m as int, d as int) < r@ + CYCLE_DAYS,
    {
        let target = Date::from_ymd(y, m, d).num_days_from_ce();
        // Walk from the anchor, one cycle at a time, towards the target until
        // the target lies in [start, start + CYCLE_DAYS).
        let mut start: i32 = ANCHOR_DAY;
        if target < ANCHOR_DAY {
            while start > target
                invariant
                    MIN_DAY <= target < ANCHOR_DAY,
                    target - CYCLE_DAYS < start <= ANCHOR_DAY,
                    is_cycle_start(start as int),
                decreases start - target + CYCLE_DAYS,
            {
                start = start - CYCLE_DAYS;
            }
        } else {
            while start + CYCLE_DAYS <= target
                invariant
                    ANCHOR_DAY <= start <= target <= MAX_DAY,
                    is_cycle_start(start as int),
                decreases target - start,
            {
                start = start + CYCLE_DAYS;
            }
        }
        proof { lemma_start_of_aligned(start as int, target as int); }
        AIRAC { start: Date::from_num_days_from_ce(start) }
    }

    /// The cycle just before this one.
    pub fn previous(&self) -> (r: AIRAC)
        requires
            MIN_DAY <= self@,
        ensures
            r@ == self@ - CYCLE_DAYS,
    {
        proof { use_type_invariant(self); }
        let s = self.start.num_days_from_ce();
        AIRAC { start: Date::from_num_days_from_ce(s - CYCLE_DAYS) }
    }

    /// The cycle just after this one.
    pub fn next(&self) -> (r: AIRAC)
        requires
            self@ + CYCLE_DAYS <= MAX_DAY,
        ensures
            r@ == self@ + CYCLE_DAYS,
    {
        proof { use_type_invariant(self); }
        let s = self.start.num_days_from_ce();
        AIRAC { start: Date::from_num_days_from_ce(s + CYCLE_DAYS) }
    }

    /// The date on which this cycle became effective.
    pub fn starts(&self) -> (r: Date)
        ensures
            r@ == self@,
            is_cycle_start(r@),
    {
        proof { use_type_invariant(self); }
        self.start
    }

    /// The date on which this cycle became ineffective: it is no longer
    /// effective from the start of that day.
    pub fn ends(&self) -> (r: Date)
        ensures
            r@ == self@ + CYCLE_DAYS,
    {
        proof { use_type_invariant(self); }
        let s = self.start.num_days_from_ce();
        Date::from_num_days_from_ce(s + CYCLE_DAYS)
    }

    /// The identifier of this cycle: two digits of its year, then two of its
    /// sequence number within that year.
    pub fn identifier(&self) -> (r: String)
        requires
            MIN_DAY <= self@,
        ensures
            r@ == identifier_of(self@),
            sequence_number(self@) <= 14,
            r@.len() == 4,
    {
        proof { use_type_invariant(self); }
        let s = self.start.num_days_from_ce();
        let year = match chrono_year_of_day(s) {
            Some(y) => y,
            None => 0,
        };
        proof { lemma_year_length(year as int); }
        let mut count: u32 = 0;
        let mut cur: i32 = s;
        loop
            invariant
                MIN_DAY <= cur <= s <= MAX_DAY,
                year == year_of_day(s as int),
                days_before_year(year as int) < cur,
                s <= days_before_year(year as int) + 366,
                count as int * CYCLE_DAYS == s - cur,
                same_year_predecessors(year as int, s as int) == count + same_year_predecessors(
                    year as int,
                    cur as int,
                ),
            ensures
                same_year_predecessors(year as int, s as int) == count,
            decreases cur - MIN_DAY,
        {
            if cur - CYCLE_DAYS < MIN_DAY {
                break;
            }
            let prev = cur - CYCLE_DAYS;
            match chrono_year_of_day(prev) {
                Some(py) => {
                    if py != year {
                        break;
                    }
                },
                None => {
                    break;
                },
            }
            count = count + 1;
            cur = prev;
        }
        let yy = match year.checked_rem_euclid(100) {
            Some(v) => v,
            None => 0,
        };
        let mut out = String::new();
        push_zero_padded(&mut out, yy as u32);
        push_zero_padded(&mut out, count + 1);
        proof {
            lemma_zero_padded_two_digits(yy as nat);
            lemma_zero_padded_two_digits((count + 1) as nat);
        }
        out
    }
}

} // verus!

verus! {

/// Every date lies in the cycle that is located for it: on or after its
/// start, and before its end.
pub proof fn lemma_locate_contains(y: int, m: int, d: int)
    requires
        is_valid_ymd(y, m, d),
    ensures
        cycle_start_of(day_number(y, m, d)) <= day_number(y, m, d) < cycle_start_of(
            day_number(y, m, d),
        ) + CYCLE_DAYS,
        is_cycle_start(cycle_start_of(day_number(y, m, d))),
{
    lemma_cycle_start_of_bounds(day_number(y, m, d));
}

/// The previous cycle comes before a cycle, and the next one after it.
pub proof fn lemma_previous_before_next(c: AIRAC)
    ensures
        day_order(c@ - CYCLE_DAYS, c@) == Some(core::cmp::Ordering::Less),
        day_order(c@, c@ + CYCLE_DAYS) == Some(core::cmp::Ordering::Less),
{
}

/// Stepping back then forward, or forward then back, gives the same cycle.
pub proof fn lemma_step_round_trip(c: AIRAC)
    ensures
        (c@ - CYCLE_DAYS) + CYCLE_DAYS == c@,
        (c@ + CYCLE_DAYS) - CYCLE_DAYS == c@,
{
}

/// The sequence number of the next cycle is one more when it starts in the
/// same year, and 1 when it starts in a new year.
pub proof fn lemma_sequence_step(s: int)
    requires
        MIN_DAY <= s,
        s + CYCLE_DAYS <= MAX_DAY,
    ensures
        year_of_day(s + CYCLE_DAYS) == year_of_day(s) ==> sequence_number(s + CYCLE_DAYS)
            == sequence_number(s) + 1,
        year_of_day(s + CYCLE_DAYS) != year_of_day(s) ==> sequence_number(s + CYCLE_DAYS) == 1,
{
    reveal_with_fuel(same_year_predecessors, 2);
}

} // verus!
