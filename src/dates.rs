use vstd::prelude::*;

verus! {

/// A day of the proleptic Gregorian calendar.
#[derive(Clone, Copy, Debug, PartialEq, Eq, Structural)]
pub struct CivilDate {
    pub year: i64,
    pub month: u32,
    pub day: u32,
}

pub open spec fn is_leap(y: int) -> bool {
    (y % 4 == 0 && y % 100 != 0) || y % 400 == 0
}

pub open spec fn days_in_month(y: int, m: int) -> int {
    if m == 2 {
        if is_leap(y) {
            29
        } else {
            28
        }
    } else if m == 4 || m == 6 || m == 9 || m == 11 {
        30
    } else {
        31
    }
}

/// Month and day name a real day of the year.
pub open spec fn calendar_day(d: CivilDate) -> bool {
    &&& 1 <= d.month <= 12
    &&& 1 <= d.day <= days_in_month(d.year as int, d.month as int)
}

/// A real calendar day whose year a chrono date can hold.
pub open spec fn valid_date(d: CivilDate) -> bool {
    &&& i32::MIN <= d.year <= i32::MAX
    &&& calendar_day(d)
}

/// The calendar day after `d`.
pub open spec fn next_day(d: CivilDate) -> CivilDate {
    if (d.day as int) < days_in_month(d.year as int, d.month as int) {
        CivilDate { year: d.year, month: d.month, day: (d.day + 1) as u32 }
    } else if d.month < 12 {
        CivilDate { year: d.year, month: (d.month + 1) as u32, day: 1 }
    } else {
        CivilDate { year: (d.year + 1) as i64, month: 1, day: 1 }
    }
}

/// The calendar day before `d`.
pub open spec fn prev_day_of(d: CivilDate) -> CivilDate {
    if d.day > 1 {
        CivilDate { year: d.year, month: d.month, day: (d.day - 1) as u32 }
    } else if d.month > 1 {
        CivilDate {
            year: d.year,
            month: (d.month - 1) as u32,
            day: days_in_month(d.year as int, d.month - 1) as u32,
        }
    } else {
        CivilDate { year: (d.year - 1) as i64, month: 12, day: 31 }
    }
}

/// A number that grows with the date.
pub open spec fn date_key(d: CivilDate) -> int {
    d.year * 10000 + d.month * 100 + d.day
}

/// The days of `month` in `year`, first to last.
pub open spec fn month_span(year: i64, month: u32) -> Seq<CivilDate> {
    Seq::new(
        days_in_month(year as int, month as int) as nat,
        |i: int| CivilDate { year, month, day: (i + 1) as u32 },
    )
}

/// The `n` days that end with `today`, oldest first.
pub open spec fn recent_span(today: CivilDate, n: nat) -> Seq<CivilDate>
    decreases n,
{
    if n == 0 {
        Seq::empty()
    } else {
        recent_span(prev_day_of(today), (n - 1) as nat).push(today)
    }
}

fn is_leap_year(y: i64) -> (r: bool)
    ensures
        r == is_leap(y as int),
{
    (y % 4 == 0 && y % 100 != 0) || y % 400 == 0
}

/// The number of days of `month` in `year`.
pub fn month_length(year: i64, month: u32) -> (r: u32)
    ensures
        r == days_in_month(year as int, month as int),
{
    if month == 2 {
        if is_leap_year(year) {
            29
        } else {
            28
        }
    } else if month == 4 || month == 6 || month == 9 || month == 11 {
        30
    } else {
        31
    }
}

/// The calendar day before a valid date.
pub fn prev_day(d: CivilDate) -> (r: CivilDate)
    requires
        calendar_day(d),
        d.year > i64::MIN,
    ensures
        r == prev_day_of(d),
{
    if d.day > 1 {
        CivilDate { year: d.year, month: d.month, day: d.day - 1 }
    } else if d.month > 1 {
        CivilDate { year: d.year, month: d.month - 1, day: month_length(d.year, d.month - 1) }
    } else {
        CivilDate { year: d.year - 1, month: 12, day: 31 }
    }
}

/// Each day of `month` in `year`, first to last.
pub fn month_dates(year: i64, month: u32) -> (r: Vec<CivilDate>)
    ensures
        r@ == month_span(year, month),
{
    let n = month_length(year, month);
    let mut r: Vec<CivilDate> = Vec::new();
    let mut d: u32 = 1;
    while d <= n
        invariant
            1 <= d <= n + 1,
            n <= 31,
            n == days_in_month(year as int, month as int),
            r@ =~= month_span(year, month).subrange(0, d - 1),
        decreases n + 1 - d,
    {
        r.push(CivilDate { year, month, day: d });
        d = d + 1;
    }
    r
}

proof fn lemma_prev_day(d: CivilDate)
    requires
        calendar_day(d),
        d.year > i64::MIN,
    ensures
        prev_day_of(d).year >= d.year - 1,
        calendar_day(prev_day_of(d)),
        next_day(prev_day_of(d)) == d,
        date_key(prev_day_of(d)) < date_key(d),
{
}

/// The `n` days that end with `today`, oldest first.
pub fn recent_dates(today: CivilDate, n: u32) -> (r: Vec<CivilDate>)
    requires
        valid_date(today),
    ensures
        r@ == recent_span(today, n as nat),
{
    let mut back: Vec<CivilDate> = Vec::new();
    let mut cur = today;
    let mut k: u32 = 0;
    while k < n
        invariant
            k <= n,
            calendar_day(cur),
            today.year - k <= cur.year <= today.year,
            i32::MIN <= today.year <= i32::MAX,
            back@.len() == k,
            recent_span(today, n as nat) == recent_span(cur, (n - k) as nat) + back@,
        decreases n - k,
    {
        let ghost old_back = back@;
        proof {
            lemma_prev_day(cur);
        }
        let ghost rest = recent_span(prev_day_of(cur), (n - k - 1) as nat);
        assert(recent_span(cur, (n - k) as nat) == rest.push(cur));
        back.insert(0, cur);
        assert(rest.push(cur) + old_back =~= rest + back@);
        cur = prev_day(cur);
        k = k + 1;
    }
    assert(recent_span(cur, 0) =~= Seq::<CivilDate>::empty());
    assert(Seq::<CivilDate>::empty() + back@ =~= back@);
    back
}

/// The rolling window of `n` days that ends with `today` holds `n` real
/// days, each the day after the one before it, the last being `today`; so no
/// day occurs twice.
pub proof fn lemma_recent_span(today: CivilDate, n: nat)
    requires
        calendar_day(today),
        today.year > i64::MIN + n,
    ensures
        recent_span(today, n).len() == n,
        n > 0 ==> recent_span(today, n).last() == today,
        forall|i: int| 0 <= i < n ==> calendar_day(#[trigger] recent_span(today, n)[i]),
        forall|i: int|
            0 <= i < n - 1 ==> next_day(#[trigger] recent_span(today, n)[i]) == recent_span(
                today,
                n,
            )[i + 1],
        forall|i: int, j: int|
            0 <= i < j < n ==> date_key(#[trigger] recent_span(today, n)[i]) < date_key(
                #[trigger] recent_span(today, n)[j],
            ),
        recent_span(today, n).no_duplicates(),
    decreases n,
{
    if n > 0 {
        let p = prev_day_of(today);
        lemma_prev_day(today);
        lemma_recent_span(p, (n - 1) as nat);
        let prev = recent_span(p, (n - 1) as nat);
        let s = recent_span(today, n);
        assert(s == prev.push(today));
        assert forall|i: int, j: int| 0 <= i < j < n implies date_key(#[trigger] s[i]) < date_key(
            #[trigger] s[j],
        ) by {
            if j == n - 1 && i < n - 2 {
                assert(date_key(prev[i]) < date_key(prev[n - 2]));
            }
        }
        assert forall|i: int| 0 <= i < n - 1 implies next_day(#[trigger] s[i]) == s[i + 1] by {
            if i < n - 2 {
                assert(next_day(prev[i]) == prev[i + 1]);
            }
        }
        assert forall|i: int, j: int| 0 <= i < n && 0 <= j < n && i != j implies s[i] != s[j] by {
            if i < j {
                assert(date_key(s[i]) < date_key(s[j]));
            } else {
                assert(date_key(s[j]) < date_key(s[i]));
            }
        }
    }
}

} // verus!
