use vstd::prelude::*;
use vstd::string::*;

use chrono::Datelike;

use crate::dates::{
    calendar_day, lemma_recent_span, month_dates, month_span, recent_dates, recent_span,
    valid_date, CivilDate,
};
use crate::staleness::seconds_since_epoch;
use crate::traffic::view_names;

verus! {

/// The span of access-log days that a traffic query covers.
pub enum TimeWindow {
    /// A wildcard or date pattern appended to the index prefix.
    Pattern(String),
    /// Every day of one calendar month.
    Month { year: i64, month: u32 },
    /// The given number of days that end with today.
    RecentDays(u32),
}

pub open spec fn digit_char(n: int) -> char {
    seq!['0', '1', '2', '3', '4', '5', '6', '7', '8', '9'][n]
}

/// The decimal digits of `n`, most significant first.
pub open spec fn decimal(n: nat) -> Seq<char>
    decreases n,
{
    if n < 10 {
        seq![digit_char(n as int)]
    } else {
        decimal(n / 10).push(digit_char((n % 10) as int))
    }
}

/// The decimal digits of `n`, with zeros in front up to `width` characters.
pub open spec fn zero_padded(n: nat, width: nat) -> Seq<char> {
    let d = decimal(n);
    if d.len() >= width {
        d
    } else {
        Seq::new((width - d.len()) as nat, |_i: int| '0') + d
    }
}

/// A year written with at least four characters, sign included.
pub open spec fn year_text(y: int) -> Seq<char> {
    if y >= 0 {
        zero_padded(y as nat, 4)
    } else {
        seq!['-'] + zero_padded((-y) as nat, 3)
    }
}

/// The access-log index of one day: `filebeat-YYYY.MM.DD`.
pub open spec fn index_name_of(d: CivilDate) -> Seq<char> {
    "filebeat-"@ + year_text(d.year as int) + seq!['.'] + zero_padded(d.month as nat, 2) + seq![
        '.',
    ] + zero_padded(d.day as nat, 2)
}

/// What a window asks of its arguments: a month must be a real one.
pub open spec fn window_ok(w: TimeWindow) -> bool {
    match w {
        TimeWindow::Month { month, .. } => 1 <= month <= 12,
        _ => true,
    }
}

/// The index names that a window covers when today is `today`.
pub open spec fn window_index_names(w: TimeWindow, today: CivilDate) -> Seq<Seq<char>> {
    match w {
        TimeWindow::Pattern(p) => seq!["filebeat-"@ + p@],
        TimeWindow::Month { year, month } => month_span(year, month).map_values(
            |d: CivilDate| index_name_of(d),
        ),
        TimeWindow::RecentDays(n) => recent_span(today, n as nat).map_values(
            |d: CivilDate| index_name_of(d),
        ),
    }
}

fn digit_string(d: u64) -> (r: String)
    requires
        d < 10,
    ensures
        r@ == seq![digit_char(d as int)],
{
    let r = if d == 0 {
        String::from_str("0")
    } else if d == 1 {
        String::from_str("1")
    } else if d == 2 {
        String::from_str("2")
    } else if d == 3 {
        String::from_str("3")
    } else if d == 4 {
        String::from_str("4")
    } else if d == 5 {
        String::from_str("5")
    } else if d == 6 {
        String::from_str("6")
    } else if d == 7 {
        String::from_str("7")
    } else if d == 8 {
        String::from_str("8")
    } else {
        String::from_str("9")
    };
    proof {
        reveal_strlit("0");
        reveal_strlit("1");
        reveal_strlit("2");
        reveal_strlit("3");
        reveal_strlit("4");
        reveal_strlit("5");
        reveal_strlit("6");
        reveal_strlit("7");
        reveal_strlit("8");
        reveal_strlit("9");
    }
    assert(r@ =~= seq![digit_char(d as int)]);
    r
}

fn decimal_string(n: u64) -> (r: String)
    ensures
        r@ == decimal(n as nat),
    decreases n,
{
    if n < 10 {
        digit_string(n)
    } else {
        let mut r = decimal_string(n / 10);
        let last = digit_string(n % 10);
        r.append(last.as_str());
        assert(r@ =~= decimal(n as nat));
        r
    }
}

/// The decimal digits of `n`, zero-filled on the left to `width` characters.
pub(crate) fn zero_padded_decimal(n: u64, width: usize) -> (r: String)
    ensures
        r@ == zero_padded(n as nat, width as nat),
{
    let digits = decimal_string(n);
    let len = digits.as_str().unicode_len();
    if len >= width {
        return digits;
    }
    let mut r = String::new();
    let mut i: usize = 0;
    while i < width - len
        invariant
            len < width,
            i <= width - len,
            r@ =~= Seq::new(i as nat, |_k: int| '0'),
        decreases width - len - i,
    {
        r.append("0");
        proof {
            reveal_strlit("0");
        }
        i = i + 1;
    }
    r.append(digits.as_str());
    assert(r@ =~= zero_padded(n as nat, width as nat));
    r
}

/// Relies on chrono's `DateTime::from_timestamp(ts, 0)` and
/// `naive_utc().date()`: the calendar day that holds second `ts` of the Unix
/// timeline, a real day within chrono's year range; `None` where chrono has no
/// date for it.
#[verifier::external_body]
fn civil_date_of_timestamp(ts: i64) -> (r: Option<CivilDate>)
    ensures
        r matches Some(d) ==> valid_date(d),
{
    chrono::DateTime::from_timestamp(ts, 0).map(|dt| {
        let d = dt.naive_utc().date();
        CivilDate { year: i64::from(d.year()), month: d.month(), day: d.day() }
    })
}

/// The local calendar day at `now` (seconds since the epoch) in a time zone
/// `utc_offset` seconds ahead of UTC; `None` where no such day can be had.
pub fn local_date(now: u64, utc_offset: i32) -> (r: Option<CivilDate>)
    ensures
        r matches Some(d) ==> valid_date(d),
{
    let local: i128 = now as i128 + utc_offset as i128;
    if local > i64::MAX as i128 {
        return None;
    }
    civil_date_of_timestamp(local as i64)
}

/// The index name of one day.
pub fn index_name(d: CivilDate) -> (r: String)
    ensures
        r@ == index_name_of(d),
{
    let mut r = String::from_str("filebeat-");
    proof {
        reveal_strlit("filebeat-");
    }
    if d.year >= 0 {
        let y = zero_padded_decimal(d.year as u64, 4);
        r.append(y.as_str());
    } else {
        let y = zero_padded_decimal((0i128 - d.year as i128) as u64, 3);
        r.append("-");
        proof {
            reveal_strlit("-");
        }
        r.append(y.as_str());
    }
    r.append(".");
    proof {
        reveal_strlit(".");
    }
    let m = zero_padded_decimal(d.month as u64, 2);
    r.append(m.as_str());
    r.append(".");
    let dd = zero_padded_decimal(d.day as u64, 2);
    r.append(dd.as_str());
    assert(r@ =~= index_name_of(d));
    r
}

fn index_names_of_dates(dates: &Vec<CivilDate>) -> (r: Vec<String>)
    ensures
        view_names(r@) == dates@.map_values(|d: CivilDate| index_name_of(d)),
{
    let mut r: Vec<String> = Vec::new();
    let mut i: usize = 0;
    while i < dates.len()
        invariant
            i <= dates@.len(),
            view_names(r@) =~= dates@.subrange(0, i as int).map_values(
                |d: CivilDate| index_name_of(d),
            ),
        decreases dates@.len() - i,
    {
        let ghost prev = r@;
        let name = index_name(dates[i]);
        r.push(name);
        assert(view_names(r@) =~= view_names(prev).push(index_name_of(dates@[i as int])));
        assert(dates@.subrange(0, i + 1).map_values(|d: CivilDate| index_name_of(d))
            =~= dates@.subrange(0, i as int).map_values(|d: CivilDate| index_name_of(d)).push(
            index_name_of(dates@[i as int]),
        ));
        i = i + 1;
    }
    assert(dates@.subrange(0, dates@.len() as int) =~= dates@);
    r
}

/// Whether a window names a real month, where it names one.
pub fn window_is_valid(w: &TimeWindow) -> (r: bool)
    ensures
        r == window_ok(*w),
{
    match w {
        TimeWindow::Month { month, .. } => 1 <= *month && *month <= 12,
        _ => true,
    }
}

/// The names of the access-log indices that a window covers, when today is
/// `today`: the prefix and the pattern; or one name per day of the month; or
/// one name per day of the rolling window, oldest first.
pub fn index_names(w: &TimeWindow, today: CivilDate) -> (r: Vec<String>)
    requires
        window_ok(*w),
        w is RecentDays ==> valid_date(today),
    ensures
        view_names(r@) == window_index_names(*w, today),
{
    match w {
        TimeWindow::Pattern(p) => {
            let mut name = String::from_str("filebeat-");
            proof {
                reveal_strlit("filebeat-");
            }
            name.append(p.as_str());
            let mut r: Vec<String> = Vec::new();
            r.push(name);
            assert(view_names(r@) =~= window_index_names(*w, today));
            r
        },
        TimeWindow::Month { year, month } => {
            let dates = month_dates(*year, *month);
            index_names_of_dates(&dates)
        },
        TimeWindow::RecentDays(n) => {
            let dates = recent_dates(today, *n);
            index_names_of_dates(&dates)
        },
    }
}

/// The names of the access-log indices that a window covers. A rolling window
/// ends with the current day in a time zone `utc_offset` seconds ahead of UTC,
/// read from the clock; `None` where that day cannot be had. The other windows
/// do not read the clock.
pub fn index_names_now(w: &TimeWindow, utc_offset: i32) -> (r: Option<Vec<String>>)
    requires
        window_ok(*w),
    ensures
        !(w is RecentDays) ==> (r matches Some(v) && forall|t: CivilDate|
            view_names(v@) == #[trigger] window_index_names(*w, t)),
        r matches Some(v) ==> exists|today: CivilDate|
            valid_date(today) && view_names(v@) == #[trigger] window_index_names(*w, today),
{
    let epoch = CivilDate { year: 1970, month: 1, day: 1 };
    match w {
        TimeWindow::RecentDays(_) => {
            let now = seconds_since_epoch();
            match local_date(now, utc_offset) {
                Some(today) => Some(index_names(w, today)),
                None => None,
            }
        },
        _ => {
            let v = index_names(w, epoch);
            assert(valid_date(epoch));
            assert forall|t: CivilDate| view_names(v@) == #[trigger] window_index_names(*w, t) by {}
            Some(v)
        },
    }
}

/// The value of a decimal digit.
pub open spec fn digit_value(c: char) -> int {
    if c == '1' {
        1
    } else if c == '2' {
        2
    } else if c == '3' {
        3
    } else if c == '4' {
        4
    } else if c == '5' {
        5
    } else if c == '6' {
        6
    } else if c == '7' {
        7
    } else if c == '8' {
        8
    } else if c == '9' {
        9
    } else {
        0
    }
}

/// The number that a string of decimal digits writes.
pub open spec fn digits_value(s: Seq<char>) -> int
    decreases s.len(),
{
    if s.len() == 0 {
        0
    } else {
        digits_value(s.drop_last()) * 10 + digit_value(s.last())
    }
}

proof fn lemma_digit(k: int)
    requires
        0 <= k < 10,
    ensures
        digit_value(digit_char(k)) == k,
        digit_char(k) != '-',
{
    let ds = seq!['0', '1', '2', '3', '4', '5', '6', '7', '8', '9'];
    assert(ds[0] == '0' && ds[1] == '1' && ds[2] == '2' && ds[3] == '3' && ds[4] == '4');
    assert(ds[5] == '5' && ds[6] == '6' && ds[7] == '7' && ds[8] == '8' && ds[9] == '9');
}

proof fn lemma_decimal(n: nat)
    ensures
        digits_value(decimal(n)) == n,
        1 <= decimal(n).len(),
        n < 100 ==> decimal(n).len() <= 2,
        decimal(n)[0] != '-',
    decreases n,
{
    if n >= 10 {
        lemma_decimal(n / 10);
        lemma_digit((n % 10) as int);
        assert(decimal(n).drop_last() =~= decimal(n / 10));
        assert(decimal(n)[0] == decimal(n / 10)[0]);
        assert(decimal(n).last() == digit_char((n % 10) as int));
        assert(digits_value(decimal(n)) == digits_value(decimal(n / 10)) * 10 + digit_value(
            decimal(n).last(),
        ));
        assert(n == (n / 10) * 10 + n % 10);
    } else {
        lemma_digit(n as int);
        assert(decimal(n) =~= seq![digit_char(n as int)]);
        assert(decimal(n).drop_last() =~= Seq::<char>::empty());
        assert(digits_value(Seq::<char>::empty()) == 0);
        assert(digits_value(decimal(n)) == digits_value(decimal(n).drop_last()) * 10
            + digit_value(decimal(n).last()));
    }
}

proof fn lemma_zeros_value(k: nat, d: Seq<char>)
    ensures
        digits_value(Seq::new(k, |_i: int| '0') + d) == digits_value(d),
    decreases d.len(), k,
{
    let z = Seq::new(k, |_i: int| '0');
    if d.len() > 0 {
        assert((z + d).drop_last() =~= z + d.drop_last());
        lemma_zeros_value(k, d.drop_last());
    } else if k > 0 {
        let z1 = Seq::new((k - 1) as nat, |_i: int| '0');
        assert(z.drop_last() =~= z1 + Seq::<char>::empty());
        assert(z + d =~= z);
        lemma_zeros_value((k - 1) as nat, Seq::<char>::empty());
        assert(z1 + Seq::<char>::empty() =~= z1);
    } else {
        assert(z + d =~= Seq::<char>::empty());
    }
}

proof fn lemma_zero_padded(n: nat, w: nat)
    ensures
        digits_value(zero_padded(n, w)) == n,
        1 <= zero_padded(n, w).len(),
        n < 100 && w == 2 ==> zero_padded(n, w).len() == 2,
        zero_padded(n, w)[0] != '-',
{
    lemma_decimal(n);
    let d = decimal(n);
    if d.len() < w {
        lemma_zeros_value((w - d.len()) as nat, d);
    }
}

proof fn lemma_index_name_parts(d: CivilDate)
    requires
        calendar_day(d),
    ensures
        index_name_of(d).len() == 15 + year_text(d.year as int).len(),
        index_name_of(d).subrange(
            index_name_of(d).len() - 2,
            index_name_of(d).len() as int,
        ) == zero_padded(d.day as nat, 2),
        index_name_of(d).subrange(
            index_name_of(d).len() - 5,
            index_name_of(d).len() - 3,
        ) == zero_padded(d.month as nat, 2),
        index_name_of(d).subrange(9, index_name_of(d).len() - 6) == year_text(d.year as int),
{
    reveal_strlit("filebeat-");
    lemma_zero_padded(d.month as nat, 2);
    lemma_zero_padded(d.day as nat, 2);
    let n = index_name_of(d);
    let len = n.len() as int;
    assert(n.subrange(len - 2, len) =~= zero_padded(d.day as nat, 2));
    assert(n.subrange(len - 5, len - 3) =~= zero_padded(d.month as nat, 2));
    assert(n.subrange(9, len - 6) =~= year_text(d.year as int));
}

proof fn lemma_year_text(y: int)
    ensures
        1 <= year_text(y).len(),
        y >= 0 ==> year_text(y)[0] != '-' && digits_value(year_text(y)) == y,
        y < 0 ==> year_text(y)[0] == '-' && digits_value(year_text(y).drop_first()) == -y,
{
    if y >= 0 {
        lemma_zero_padded(y as nat, 4);
    } else {
        lemma_zero_padded((-y) as nat, 3);
        assert(year_text(y).drop_first() =~= zero_padded((-y) as nat, 3));
    }
}

/// Two real days with the same index name are the same day.
pub proof fn lemma_index_name_injective(d1: CivilDate, d2: CivilDate)
    requires
        calendar_day(d1),
        calendar_day(d2),
        index_name_of(d1) == index_name_of(d2),
    ensures
        d1 == d2,
{
    lemma_index_name_parts(d1);
    lemma_index_name_parts(d2);
    lemma_zero_padded(d1.month as nat, 2);
    lemma_zero_padded(d2.month as nat, 2);
    lemma_zero_padded(d1.day as nat, 2);
    lemma_zero_padded(d2.day as nat, 2);
    lemma_year_text(d1.year as int);
    lemma_year_text(d2.year as int);
}

/// A rolling window of `n` days ending today names `n` distinct indices.
pub proof fn lemma_recent_names_distinct(today: CivilDate, n: nat)
    requires
        calendar_day(today),
        today.year > i64::MIN + n,
    ensures
        window_index_names(TimeWindow::RecentDays(n as u32), today).len() == n as u32,
        window_index_names(TimeWindow::RecentDays(n as u32), today).no_duplicates(),
{
    let k = (n as u32) as nat;
    assert(k <= n);
    lemma_recent_span(today, k);
    let span = recent_span(today, k);
    let names = window_index_names(TimeWindow::RecentDays(n as u32), today);
    assert forall|i: int, j: int| 0 <= i < names.len() && 0 <= j < names.len() && i != j implies names[i]
        != names[j] by {
        if names[i] == names[j] {
            lemma_index_name_injective(span[i], span[j]);
        }
    }
}

} // verus!
