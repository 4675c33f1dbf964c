//! Calendar dates and the weekend-aware date resolution.
//!
//! A `Date` is a Gregorian calendar date between 1970-01-01 and 9999-12-31.
//! Its mathematical model is the day number: the count of days since
//! 1970-01-01, defined by summing year and month lengths. Weekdays are an
//! index derived from the day number, with 0 for Monday through 6 for Sunday;
//! 1970-01-01 was a Thursday, index 3.

use chrono::Datelike;
use vstd::prelude::*;

verus! {

use vstd::arithmetic::div_mod::lemma_add_mod_noop_right;

/// Greatest supported year: the model stops at the end of year 9999.
pub const MAX_YEAR: u32 = 9999;

#[derive(Clone, Copy, Debug, PartialEq, Eq, Structural)]
pub struct Date {
    pub year: u32,
    pub month: u32,
    pub day: u32,
}

pub open spec fn is_leap_year(y: int) -> bool {
    y % 4 == 0 && (y % 100 != 0 || y % 400 == 0)
}

pub open spec fn year_length(y: int) -> int {
    if is_leap_year(y) {
        366
    } else {
        365
    }
}

pub open spec fn days_in_month(y: int, m: int) -> int {
    if m == 2 {
        if is_leap_year(y) {
            29
        } else {
            28
        }
    } else if m == 4 || m == 6 || m == 9 || m == 11 {
        30
    } else {
        31
    }
}

/// Days from 1970-01-01 up to the first day of year `y`.
pub open spec fn days_before_year(y: int) -> int
    decreases y,
{
    if y <= 1970 {
        0
    } else {
        days_before_year(y - 1) + year_length(y - 1)
    }
}

/// Days from the first of January of year `y` up to the first day of month `m`.
pub open spec fn days_before_month(y: int, m: int) -> int
    decreases m,
{
    if m <= 1 {
        0
    } else {
        days_before_month(y, m - 1) + days_in_month(y, m - 1)
    }
}

impl Date {
    /// A well-formed date: a real Gregorian calendar date in the supported range.
    pub open spec fn wf(self) -> bool {
        &&& 1970 <= self.year <= MAX_YEAR
        &&& 1 <= self.month <= 12
        &&& 1 <= self.day <= days_in_month(self.year as int, self.month as int)
    }

    /// The date's day number: days since 1970-01-01.
    pub open spec fn spec_day_number(self) -> int {
        days_before_year(self.year as int) + days_before_month(self.year as int, self.month as int)
            + self.day - 1
    }

    /// Weekday index of the date: 0 is Monday, ..., 5 is Saturday, 6 is Sunday.
    pub open spec fn spec_weekday(self) -> int {
        (self.spec_day_number() + 3) % 7
    }
}

proof fn lemma_days_before_year_bounds(y: int)
    requires
        1970 <= y,
    ensures
        0 <= days_before_year(y) <= 366 * (y - 1970),
    decreases y,
{
    if y > 1970 {
        lemma_days_before_year_bounds(y - 1);
    }
}

proof fn lemma_days_before_month_bounds(y: int, m: int)
    requires
        1 <= m <= 13,
    ensures
        0 <= days_before_month(y, m) <= 31 * (m - 1),
    decreases m,
{
    if m > 1 {
        lemma_days_before_month_bounds(y, m - 1);
    }
}

/// Day numbers of well-formed dates fit comfortably in a `u32`.
pub proof fn lemma_day_number_bounds(d: Date)
    requires
        d.wf(),
    ensures
        0 <= d.spec_day_number() < 3000000,
{
    lemma_days_before_year_bounds(d.year as int);
    lemma_days_before_month_bounds(d.year as int, d.month as int);
}

fn leap_year(y: u32) -> (r: bool)
    ensures
        r == is_leap_year(y as int),
{
    y % 4 == 0 && (y % 100 != 0 || y % 400 == 0)
}

pub fn month_length(y: u32, m: u32) -> (r: u32)
    ensures
        r == days_in_month(y as int, m as int),
        28 <= r <= 31,
{
    if m == 2 {
        if leap_year(y) {
            29
        } else {
            28
        }
    } else if m == 4 || m == 6 || m == 9 || m == 11 {
        30
    } else {
        31
    }
}

/// A date from its calendar fields, if they name a real date in the
/// supported range.
pub fn make_date(year: u32, month: u32, day: u32) -> (r: Option<Date>)
    ensures
        match r {
            Some(d) => d == (Date { year, month, day }) && d.wf(),
            None => !(Date { year, month, day }).wf(),
        },
{
    if 1970 <= year && year <= MAX_YEAR && 1 <= month && month <= 12 && 1 <= day && day
        <= month_length(year, month) {
        Some(Date { year, month, day })
    } else {
        None
    }
}

impl Date {
    /// Days since 1970-01-01.
    pub fn day_number(&self) -> (n: u32)
        requires
            self.wf(),
        ensures
            n == self.spec_day_number(),
            n < 3000000,
    {
        proof {
            lemma_day_number_bounds(*self);
        }
        let mut acc: u32 = 0;
        let mut y: u32 = 1970;
        while y < self.year
            invariant
                1970 <= y <= self.year,
                self.wf(),
                acc == days_before_year(y as int),
                acc <= 366 * (y - 1970),
            decreases self.year - y,
        {
            if leap_year(y) {
                acc = acc + 366;
            } else {
                acc = acc + 365;
            }
            y = y + 1;
        }
        let mut m: u32 = 1;
        while m < self.month
            invariant
                1 <= m <= self.month,
                self.wf(),
                acc == days_before_year(self.year as int) + days_before_month(
                    self.year as int,
                    m as int,
                ),
                acc <= 366 * (self.year - 1970) + 31 * (m - 1),
            decreases self.month - m,
        {
            acc = acc + month_length(self.year, m);
            m = m + 1;
        }
        acc + self.day - 1
    }

    /// Weekday index: 0 is Monday, ..., 5 is Saturday, 6 is Sunday.
    pub fn weekday(&self) -> (w: u32)
        requires
            self.wf(),
        ensures
            w == self.spec_weekday(),
            w < 7,
    {
        (self.day_number() + 3) % 7
    }

    /// The calendar date one day later.
    pub open spec fn spec_next_day(self) -> Date {
        if self.day < days_in_month(self.year as int, self.month as int) {
            Date { day: (self.day + 1) as u32, ..self }
        } else if self.month < 12 {
            Date { month: (self.month + 1) as u32, day: 1, ..self }
        } else {
            Date { year: (self.year + 1) as u32, month: 1, day: 1 }
        }
    }
}

/// The successor of a well-formed date short of the model's last day is
/// well-formed, and its day number is one greater.
pub proof fn lemma_next_day(d: Date)
    requires
        d.wf(),
        !(d.year == MAX_YEAR && d.month == 12 && d.day == 31),
    ensures
        d.spec_next_day().wf(),
        d.spec_next_day().spec_day_number() == d.spec_day_number() + 1,
        d.spec_next_day().year == d.year || (d.spec_next_day().year == d.year + 1
            && d.spec_next_day().month == 1 && d.spec_next_day().day == 1),
{
    let y = d.year as int;
    let m = d.month as int;
    if d.day < days_in_month(y, m) {
    } else if d.month < 12 {
        assert(days_before_month(y, m + 1) == days_before_month(y, m) + days_in_month(y, m));
    } else {
        assert(days_before_month(y, 13) == 337 + days_in_month(y, 2)) by {
            reveal_with_fuel(days_before_month, 14);
        }
        assert(days_before_month(y, 13) == days_before_month(y, 12) + days_in_month(y, 12));
        assert(days_before_month(y + 1, 1) == 0);
        assert(days_before_year(y + 1) == days_before_year(y) + year_length(y));
    }
}

impl Date {
    /// The date `n` days later.
    pub open spec fn spec_add_days(self, n: nat) -> Date
        decreases n,
    {
        if n == 0 {
            self
        } else {
            self.spec_next_day().spec_add_days((n - 1) as nat)
        }
    }
}

/// Adding up to 27 days to a well-formed date with a year before the model's
/// last stays well-formed, advances the day number by exactly that count,
/// and rolls over into the next year at most once, into early January.
pub proof fn lemma_add_days(d: Date, n: nat)
    requires
        d.wf(),
        n <= 27,
        d.year < MAX_YEAR || (d.month == 1 && d.day + n <= 28),
    ensures
        d.spec_add_days(n).wf(),
        d.spec_add_days(n).spec_day_number() == d.spec_day_number() + n,
        d.month == 1 && d.day + n <= 28 ==> d.spec_add_days(n) == (Date {
            year: d.year,
            month: 1,
            day: (d.day + n) as u32,
        }),
        d.spec_add_days(n).year <= d.year + 1,
        d.spec_add_days(n).year == d.year + 1 ==> d.spec_add_days(n).month == 1
            && d.spec_add_days(n).day <= n,
    decreases n,
{
    if n > 0 {
        lemma_next_day(d);
        let d1 = d.spec_next_day();
        if d1.year == d.year {
            lemma_add_days(d1, (n - 1) as nat);
        } else {
            assert(d1.year == d.year + 1 && d1.month == 1 && d1.day == 1);
            lemma_add_days(d1, (n - 1) as nat);
            assert(d.spec_add_days(n) == (Date { year: d1.year, month: 1, day: n as u32 }));
        }
    }
}

impl Date {
    /// The calendar date one day later.
    pub fn next_day(&self) -> (r: Date)
        requires
            self.wf(),
            !(self.year == MAX_YEAR && self.month == 12 && self.day == 31),
        ensures
            r == self.spec_next_day(),
            r.wf(),
    {
        proof {
            lemma_next_day(*self);
        }
        if self.day < month_length(self.year, self.month) {
            Date { day: self.day + 1, ..*self }
        } else if self.month < 12 {
            Date { month: self.month + 1, day: 1, ..*self }
        } else {
            Date { year: self.year + 1, month: 1, day: 1 }
        }
    }

    /// The date `n` days later, for a small `n`.
    pub fn add_days(&self, n: u32) -> (r: Date)
        requires
            self.wf(),
            self.year < MAX_YEAR,
            n <= 27,
        ensures
            r == self.spec_add_days(n as nat),
            r.wf(),
            r.spec_day_number() == self.spec_day_number() + n,
    {
        proof {
            lemma_add_days(*self, n as nat);
        }
        let mut cur: Date = *self;
        let mut i: u32 = 0;
        while i < n
            invariant
                i <= n,
                n <= 27,
                self.wf(),
                self.year < MAX_YEAR,
                cur == self.spec_add_days(i as nat),
                cur.wf(),
                cur.year < MAX_YEAR || (cur.month == 1 && cur.day + (n - i) <= 28),
            decreases n - i,
        {
            proof {
                lemma_next_day(cur);
                assert(cur.spec_add_days(0) == cur);
                assert(self.spec_add_days((i + 1) as nat) == self.spec_add_days(
                    i as nat,
                ).spec_next_day()) by {
                    lemma_add_days_unfold_right(*self, (i + 1) as nat);
                }
            }
            cur = cur.next_day();
            i = i + 1;
        }
        cur
    }
}

/// Adding `a + b` days is adding `a` days and then `b` more.
pub proof fn lemma_add_days_concat(d: Date, a: nat, b: nat)
    ensures
        d.spec_add_days(a + b) == d.spec_add_days(a).spec_add_days(b),
    decreases a,
{
    if a > 0 {
        lemma_add_days_concat(d.spec_next_day(), (a - 1) as nat, b);
    }
}

/// Adding days turns the weekday index by the same count, modulo 7.
pub proof fn lemma_weekday_add(d: Date, n: nat)
    requires
        d.wf(),
        n <= 27,
        d.year < MAX_YEAR || (d.month == 1 && d.day + n <= 28),
    ensures
        d.spec_add_days(n).spec_weekday() == (d.spec_weekday() + n) % 7,
    decreases n,
{
    lemma_add_days(d, n);
    lemma_day_number_bounds(d);
    lemma_add_mod_noop_right(n as int, d.spec_day_number() + 3, 7);
}

/// How many days the resolver adds when the naive target falls on weekday
/// index `w`: weekends advance to the following Monday.
pub open spec fn spec_shift_for(w: int) -> int {
    if w == 5 {
        2
    } else if w == 6 {
        1
    } else {
        0
    }
}

/// A resolved request date: the calendar date to ask the source for, and how
/// many days the resolution moved past the naive `today + mode` target to
/// avoid a weekend.
#[derive(Clone, Copy, Debug, PartialEq, Eq, Structural)]
pub struct ResolvedDate {
    pub date: Date,
    pub shifted_by: u32,
}

impl Date {
    /// The date that a request with day-offset `mode` resolves to, starting
    /// from this date as today.
    pub open spec fn spec_resolve(self, mode: nat) -> ResolvedDate {
        let naive = self.spec_add_days(mode);
        let s = spec_shift_for(naive.spec_weekday());
        ResolvedDate { date: naive.spec_add_days(s as nat), shifted_by: s as u32 }
    }

    /// Resolve a request for `today + mode` days, skipping weekends forward:
    /// a Saturday target advances by two days and a Sunday target by one, so
    /// the resolved date never falls on a weekend.
    pub fn resolve(&self, mode: u32) -> (r: ResolvedDate)
        requires
            self.wf(),
            self.year < MAX_YEAR,
            mode <= 2,
        ensures
            r == self.spec_resolve(mode as nat),
            r.date.wf(),
            r.shifted_by <= 2,
            r.date.spec_weekday() != 5,
            r.date.spec_weekday() != 6,
    {
        let naive = self.add_days(mode);
        let w = naive.weekday();
        let shift: u32 = if w == 5 {
            2
        } else if w == 6 {
            1
        } else {
            0
        };
        proof {
            lemma_add_days(*self, mode as nat);
            lemma_add_days(naive, shift as nat);
            lemma_weekday_add(naive, shift as nat);
            lemma_add_days_concat(*self, mode as nat, shift as nat);
        }
        let date = self.add_days(mode + shift);
        ResolvedDate { date, shifted_by: shift }
    }
}

/// On a weekend day, resolving a request for that same day moves forward to
/// the next Monday: two days from a Saturday with `shifted_by` 2, one day
/// from a Sunday with `shifted_by` 1, and no earlier following day is a
/// Monday.
pub proof fn lemma_weekend_resolves_to_monday(today: Date)
    requires
        today.wf(),
        today.year < MAX_YEAR,
        today.spec_weekday() == 5 || today.spec_weekday() == 6,
    ensures
        today.spec_resolve(0).date.spec_weekday() == 0,
        today.spec_weekday() == 5 ==> today.spec_resolve(0).shifted_by == 2
            && today.spec_resolve(0).date == today.spec_add_days(2),
        today.spec_weekday() == 6 ==> today.spec_resolve(0).shifted_by == 1
            && today.spec_resolve(0).date == today.spec_add_days(1),
        forall|k: int|
            0 < k < today.spec_resolve(0).shifted_by ==> #[trigger] today.spec_add_days(
                k as nat,
            ).spec_weekday() != 0,
{
    assert(today.spec_add_days(0) == today);
    lemma_weekday_add(today, 1);
    lemma_weekday_add(today, 2);
}

impl Date {
    /// The distinct dates that requests with day-offsets 0, 1 and 2 resolve
    /// to when this date is today, in ascending order, deduplicated.
    pub open spec fn spec_prefetch_dates(self) -> Seq<Date> {
        let w = self.spec_weekday();
        if w == 3 {
            seq![self, self.spec_add_days(1), self.spec_add_days(4)]
        } else if w == 4 {
            seq![self, self.spec_add_days(3)]
        } else if w == 5 {
            seq![self.spec_add_days(2)]
        } else if w == 6 {
            seq![self.spec_add_days(1), self.spec_add_days(2)]
        } else {
            seq![self, self.spec_add_days(1), self.spec_add_days(2)]
        }
    }

    /// The set of dates to warm ahead of time: every date that a request
    /// with day-offset 0, 1 or 2 would resolve to today, without repetition.
    pub fn prefetch_dates(&self) -> (r: Vec<Date>)
        requires
            self.wf(),
            self.year < MAX_YEAR,
        ensures
            r@ == self.spec_prefetch_dates(),
            1 <= r@.len() <= 3,
            forall|i: int| 0 <= i < r@.len() ==> (#[trigger] r@[i]).wf(),
    {
        let w = self.weekday();
        let mut r: Vec<Date> = Vec::new();
        if w == 3 {
            r.push(*self);
            r.push(self.add_days(1));
            r.push(self.add_days(4));
        } else if w == 4 {
            r.push(*self);
            r.push(self.add_days(3));
        } else if w == 5 {
            r.push(self.add_days(2));
        } else if w == 6 {
            r.push(self.add_days(1));
            r.push(self.add_days(2));
        } else {
            r.push(*self);
            r.push(self.add_days(1));
            r.push(self.add_days(2));
        }
        proof {
            assert(r@ =~= self.spec_prefetch_dates());
        }
        r
    }
}

/// The prefetch dates are exactly the dates that the three request offsets
/// resolve to, without repetition; their count depends on the weekday alone:
/// three from Monday through Thursday, two on a Friday or Sunday, one on a
/// Saturday.
pub proof fn lemma_prefetch_dates(today: Date)
    requires
        today.wf(),
        today.year < MAX_YEAR,
    ensures
        ({
            let s = today.spec_prefetch_dates();
            let w = today.spec_weekday();
            &&& forall|i: int, j: int| 0 <= i < j < s.len() ==> s[i] != s[j]
            &&& forall|m: nat| m <= 2 ==> s.contains(#[trigger] today.spec_resolve(m).date)
            &&& forall|i: int|
                0 <= i < s.len() ==> exists|m: nat| m <= 2 && #[trigger] s[i] == today.spec_resolve(
                    m,
                ).date
            &&& w <= 3 ==> s.len() == 3
            &&& w == 4 ==> s.len() == 2
            &&& w == 5 ==> s.len() == 1
            &&& w == 6 ==> s.len() == 2
        }),
{
    let s = today.spec_prefetch_dates();
    let w = today.spec_weekday();
    assert(today.spec_add_days(0) == today);
    lemma_add_days(today, 0);
    lemma_add_days(today, 1);
    lemma_add_days(today, 2);
    lemma_add_days(today, 3);
    lemma_add_days(today, 4);
    lemma_weekday_add(today, 0);
    lemma_weekday_add(today, 1);
    lemma_weekday_add(today, 2);
    lemma_weekday_add(today.spec_add_days(0), 0);
    lemma_weekday_add(today.spec_add_days(0), 1);
    lemma_weekday_add(today.spec_add_days(0), 2);
    lemma_weekday_add(today.spec_add_days(1), 0);
    lemma_weekday_add(today.spec_add_days(1), 1);
    lemma_weekday_add(today.spec_add_days(1), 2);
    lemma_weekday_add(today.spec_add_days(2), 0);
    lemma_weekday_add(today.spec_add_days(2), 1);
    lemma_weekday_add(today.spec_add_days(2), 2);
    lemma_add_days_concat(today, 0, 0);
    lemma_add_days_concat(today, 0, 1);
    lemma_add_days_concat(today, 0, 2);
    lemma_add_days_concat(today, 1, 0);
    lemma_add_days_concat(today, 1, 1);
    lemma_add_days_concat(today, 1, 2);
    lemma_add_days_concat(today, 2, 0);
    lemma_add_days_concat(today, 2, 1);
    lemma_add_days_concat(today, 2, 2);
    assert(today.spec_resolve(0).date == today.spec_add_days(
        (0 + spec_shift_for(w % 7)) as nat,
    ));
    assert(today.spec_resolve(1).date == today.spec_add_days(
        (1 + spec_shift_for((w + 1) % 7)) as nat,
    ));
    assert(today.spec_resolve(2).date == today.spec_add_days(
        (2 + spec_shift_for((w + 2) % 7)) as nat,
    ));
    assert(w % 7 == w && (w + 1) % 7 == (if w == 6 { 0int } else { w + 1 }) && (w + 2) % 7 == (
    if w == 5 {
        0int
    } else if w == 6 {
        1int
    } else {
        w + 2
    }));
    assert forall|m: nat| m <= 2 implies s.contains(#[trigger] today.spec_resolve(m).date) by {
        let d = today.spec_resolve(m).date;
        if w == 3 {
            if m == 0 {
                assert(s[0] == d);
            } else if m == 1 {
                assert(s[1] == d);
            } else {
                assert(s[2] == d);
            }
        } else if w == 4 {
            if m == 0 {
                assert(s[0] == d);
            } else {
                assert(s[1] == d);
            }
        } else if w == 5 {
            assert(s[0] == d);
        } else if w == 6 {
            if m <= 1 {
                assert(s[0] == d);
            } else {
                assert(s[1] == d);
            }
        } else {
            if m == 0 {
                assert(s[0] == d);
            } else if m == 1 {
                assert(s[1] == d);
            } else {
                assert(s[2] == d);
            }
        }
    }
    assert forall|i: int|
        0 <= i < s.len() implies exists|m: nat|
        m <= 2 && #[trigger] s[i] == today.spec_resolve(m).date by {
        if w == 3 {
            if i == 0 {
                assert(s[i] == today.spec_resolve(0).date);
            } else if i == 1 {
                assert(s[i] == today.spec_resolve(1).date);
            } else {
                assert(s[i] == today.spec_resolve(2).date);
            }
        } else if w == 4 {
            if i == 0 {
                assert(s[i] == today.spec_resolve(0).date);
            } else {
                assert(s[i] == today.spec_resolve(1).date);
            }
        } else if w == 5 {
            assert(s[i] == today.spec_resolve(0).date);
        } else if w == 6 {
            if i == 0 {
                assert(s[i] == today.spec_resolve(0).date);
            } else {
                assert(s[i] == today.spec_resolve(2).date);
            }
        } else {
            if i == 0 {
                assert(s[i] == today.spec_resolve(0).date);
            } else if i == 1 {
                assert(s[i] == today.spec_resolve(1).date);
            } else {
                assert(s[i] == today.spec_resolve(2).date);
            }
        }
    }
}

/// The date rendered as `YYYY-MM-DD`.
pub open spec fn spec_iso_date(d: Date) -> Seq<char> {
    crate::text::spec_four_digits(d.year as int) + seq!['-'] + crate::text::spec_two_digits(
        d.month as int,
    ) + seq!['-'] + crate::text::spec_two_digits(d.day as int)
}

impl Date {
    /// Renders the date as `YYYY-MM-DD`, the form the source's query
    /// parameter and the cache key carry.
    pub fn iso_string(&self) -> (r: String)
        requires
            self.wf(),
        ensures
            r@ == spec_iso_date(*self),
    {
        let mut r = String::new();
        crate::text::push_four_digits(&mut r, self.year);
        crate::text::push_char(&mut r, '-');
        crate::text::push_two_digits(&mut r, self.month);
        crate::text::push_char(&mut r, '-');
        crate::text::push_two_digits(&mut r, self.day);
        proof {
            assert(r@ =~= spec_iso_date(*self));
        }
        r
    }
}

/// The ISO rendering names the date uniquely: two well-formed dates with
/// the same `YYYY-MM-DD` text are the same date.
pub proof fn lemma_iso_date_injective(a: Date, b: Date)
    requires
        a.wf(),
        b.wf(),
        spec_iso_date(a) == spec_iso_date(b),
    ensures
        a == b,
{
    let sa = spec_iso_date(a);
    let sb = spec_iso_date(b);
    let ya = crate::text::spec_four_digits(a.year as int);
    let yb = crate::text::spec_four_digits(b.year as int);
    let ma = crate::text::spec_two_digits(a.month as int);
    let mb = crate::text::spec_two_digits(b.month as int);
    let da = crate::text::spec_two_digits(a.day as int);
    let db = crate::text::spec_two_digits(b.day as int);
    assert(ya.len() == 4 && yb.len() == 4 && ma.len() == 2 && mb.len() == 2 && da.len() == 2
        && db.len() == 2);
    assert(ya =~= sa.subrange(0, 4) && ma =~= sa.subrange(5, 7) && da =~= sa.subrange(8, 10));
    assert(yb =~= sb.subrange(0, 4) && mb =~= sb.subrange(5, 7) && db =~= sb.subrange(8, 10));
    crate::text::lemma_four_digits_injective(a.year as int, b.year as int);
    crate::text::lemma_two_digits_injective(a.month as int, b.month as int);
    crate::text::lemma_two_digits_injective(a.day as int, b.day as int);
}

/// Relies on chrono: `Local::now` and the `Datelike` year, month and day of
/// the returned moment. chrono reports a real calendar date, so the month is
/// in 1 through 12 and the day within that month's length.
#[verifier::external_body]
fn civil_today() -> (r: (i32, u32, u32))
    ensures
        1 <= r.1 <= 12,
        1 <= r.2 <= days_in_month(r.0 as int, r.1 as int),
{
    let now = chrono::Local::now();
    (now.year(), now.month(), now.day())
}

/// Today's date by the system clock, when it falls in the supported range.
pub fn today() -> (r: Option<Date>)
    ensures
        r is Some ==> r.unwrap().wf(),
{
    let (y, m, d) = civil_today();
    if 1970 <= y && y <= 9999 {
        make_date(y as u32, m, d)
    } else {
        None
    }
}

/// Unrolling `spec_add_days` from the right: adding `n` days is adding
/// `n - 1` days and then one more.
pub proof fn lemma_add_days_unfold_right(d: Date, n: nat)
    requires
        n >= 1,
    ensures
        d.spec_add_days(n) == d.spec_add_days((n - 1) as nat).spec_next_day(),
    decreases n,
{
    if n == 1 {
        assert(d.spec_add_days(1) == d.spec_next_day().spec_add_days(0));
        assert(d.spec_next_day().spec_add_days(0) == d.spec_next_day());
        assert(d.spec_add_days(0) == d);
    } else {
        lemma_add_days_unfold_right(d.spec_next_day(), (n - 1) as nat);
    }
}

} // verus!
