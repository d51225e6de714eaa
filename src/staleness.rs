use vstd::prelude::*;
use vstd::string::*;

use crate::status::TunasyncStatus;

verus! {

pub const SECS_PER_DAY: i64 = 86400;

/// Whole days in `secs` seconds, truncated toward zero.
pub open spec fn day_count(secs: int) -> int {
    if secs >= 0 {
        secs / 86400
    } else {
        -((-secs) / 86400)
    }
}

/// Whole days from `ts` to `now`, truncated toward zero.
pub open spec fn days_from(now: int, ts: int) -> int {
    day_count(now - ts)
}

/// Whether a record counts as out of sync at time `now` under a threshold of
/// `threshold` days; with `failed_only`, only records whose status is
/// `"failed"` are considered at all.
pub open spec fn is_stale(r: TunasyncStatus, threshold: int, now: int, failed_only: bool) -> bool {
    &&& r.last_update_ts > 0
    &&& now - r.last_update_ts > threshold * 86400
    &&& (!failed_only || r.status@ == "failed"@)
}

/// The (name, days since last update) pairs for the stale records, in order.
pub open spec fn stale_results(
    recs: Seq<TunasyncStatus>,
    threshold: int,
    now: int,
    failed_only: bool,
) -> Seq<(Seq<char>, int)>
    decreases recs.len(),
{
    if recs.len() == 0 {
        Seq::empty()
    } else {
        let prev = stale_results(recs.drop_last(), threshold, now, failed_only);
        let r = recs.last();
        if is_stale(r, threshold, now, failed_only) {
            prev.push((r.name@, day_count(now - r.last_update_ts)))
        } else {
            prev
        }
    }
}

pub open spec fn result_view(p: (String, i64)) -> (Seq<char>, int) {
    (p.0@, p.1 as int)
}

/// Relies on std::time::SystemTime::duration_since(UNIX_EPOCH): the current
/// time in whole seconds since the epoch (a clock set before the epoch reads
/// as the epoch).
#[verifier::external_body]
pub(crate) fn seconds_since_epoch() -> (r: u64) {
    match std::time::SystemTime::now().duration_since(std::time::UNIX_EPOCH) {
        Ok(d) => d.as_secs(),
        Err(_) => 0,
    }
}

fn day_count_exec(secs: i128) -> (r: i64)
    requires
        -0x1_0000_0000_0000_0000_0 <= secs <= 0x1_0000_0000_0000_0000_0,
    ensures
        r == day_count(secs as int),
{
    if secs >= 0 {
        (secs / 86400) as i64
    } else {
        -(((-secs) / 86400) as i64)
    }
}

/// Whole days from `ts` to `now` (epoch seconds), truncated toward zero.
pub fn days_between(now: u64, ts: i64) -> (r: i64)
    ensures
        r == day_count(now - ts),
{
    day_count_exec(now as i128 - ts as i128)
}

/// Whole days from `ts` to the current time, truncated toward zero.
pub fn get_expire_days(ts: i64) -> (r: i64)
    ensures
        exists|now: int| 0 <= now <= u64::MAX && r == #[trigger] days_from(now, ts as int),
{
    let now = seconds_since_epoch();
    let r = days_between(now, ts);
    assert(r == days_from(now as int, ts as int));
    r
}

fn is_failed(s: &String) -> (r: bool)
    ensures
        r == (s@ == "failed"@),
{
    let failed = String::from_str("failed");
    proof {
        reveal_strlit("failed");
    }
    *s == failed
}

/// The out-of-sync repositories of `status` at time `now`, with the whole
/// days since each one's last successful update, in the order of `status`.
pub fn expired_repos_at(
    status: &Vec<TunasyncStatus>,
    expire_days: i64,
    now: u64,
    failed_only: bool,
) -> (res: Vec<(String, i64)>)
    ensures
        res@.map_values(|p: (String, i64)| result_view(p)) == stale_results(
            status@,
            expire_days as int,
            now as int,
            failed_only,
        ),
{
    let mut res: Vec<(String, i64)> = Vec::new();
    let limit: i128 = SECS_PER_DAY as i128 * expire_days as i128;
    let mut i: usize = 0;
    while i < status.len()
        invariant
            i <= status@.len(),
            limit == 86400 * expire_days,
            res@.map_values(|p: (String, i64)| result_view(p)) == stale_results(
                status@.subrange(0, i as int),
                expire_days as int,
                now as int,
                failed_only,
            ),
        decreases status@.len() - i,
    {
        let entry = &status[i];
        let elapsed: i128 = now as i128 - entry.last_update_ts as i128;
        let considered = !failed_only || is_failed(&entry.status);
        let ghost prefix = status@.subrange(0, i as int);
        assert(status@.subrange(0, i + 1).drop_last() =~= prefix);
        if considered && entry.last_update_ts > 0 && elapsed > limit {
            let days = day_count_exec(elapsed);
            res.push((entry.name.clone(), days));
        }
        i = i + 1;
        assert(res@.map_values(|p: (String, i64)| result_view(p)) =~= stale_results(
            status@.subrange(0, i as int),
            expire_days as int,
            now as int,
            failed_only,
        ));
    }
    assert(status@.subrange(0, status@.len() as int) =~= status@);
    res
}

/// The out-of-sync repositories of `status` at the current time, judged on
/// elapsed time alone.
pub fn get_expired_repos(status: &Vec<TunasyncStatus>, expire_days: i64) -> (res: Vec<(String, i64)>)
    ensures
        exists|now: int|
            0 <= now <= u64::MAX && res@.map_values(|p: (String, i64)| result_view(p))
                == #[trigger] stale_results(status@, expire_days as int, now, false),
{
    let now = seconds_since_epoch();
    let res = expired_repos_at(status, expire_days, now, false);
    assert(res@.map_values(|p: (String, i64)| result_view(p)) == stale_results(
        status@,
        expire_days as int,
        now as int,
        false,
    ));
    res
}

/// A record that was never updated yields no result, whatever the threshold,
/// the time or the policy.
pub proof fn lemma_never_updated_not_flagged(
    r: TunasyncStatus,
    threshold: int,
    now: int,
    failed_only: bool,
)
    requires
        r.last_update_ts == 0,
    ensures
        stale_results(seq![r], threshold, now, failed_only) == Seq::<(Seq<char>, int)>::empty(),
{
    assert(seq![r].drop_last() =~= Seq::<TunasyncStatus>::empty());
    assert(stale_results(Seq::empty(), threshold, now, failed_only) == Seq::<
        (Seq<char>, int),
    >::empty());
}

/// A record updated once and older than the threshold yields exactly one
/// result: its name and the whole days since its last update.
pub proof fn lemma_overdue_flagged_once(r: TunasyncStatus, threshold: int, now: int, failed_only: bool)
    requires
        r.last_update_ts > 0,
        now - r.last_update_ts > threshold * 86400,
        !failed_only || r.status@ == "failed"@,
    ensures
        stale_results(seq![r], threshold, now, failed_only) == seq![
            (r.name@, day_count(now - r.last_update_ts)),
        ],
{
    assert(seq![r].drop_last() =~= Seq::<TunasyncStatus>::empty());
    assert(stale_results(Seq::empty(), threshold, now, failed_only) == Seq::<
        (Seq<char>, int),
    >::empty());
    assert(Seq::<(Seq<char>, int)>::empty().push((r.name@, day_count(now - r.last_update_ts)))
        =~= seq![(r.name@, day_count(now - r.last_update_ts))]);
}

/// The results for two lists of records one after the other are the results
/// for the first followed by those for the second: each record is judged on
/// its own.
pub proof fn lemma_stale_results_concat(
    a: Seq<TunasyncStatus>,
    b: Seq<TunasyncStatus>,
    threshold: int,
    now: int,
    failed_only: bool,
)
    ensures
        stale_results(a + b, threshold, now, failed_only) == stale_results(
            a,
            threshold,
            now,
            failed_only,
        ) + stale_results(b, threshold, now, failed_only),
    decreases b.len(),
{
    if b.len() == 0 {
        assert(a + b =~= a);
        assert(stale_results(a, threshold, now, failed_only) + Seq::empty() =~= stale_results(
            a,
            threshold,
            now,
            failed_only,
        ));
    } else {
        assert((a + b).drop_last() =~= a + b.drop_last());
        lemma_stale_results_concat(a, b.drop_last(), threshold, now, failed_only);
        let ra = stale_results(a, threshold, now, failed_only);
        let rb = stale_results(b.drop_last(), threshold, now, failed_only);
        let x = (b.last().name@, day_count(now - b.last().last_update_ts));
        assert((ra + rb).push(x) =~= ra + rb.push(x));
    }
}

/// Lowering the threshold never lowers the number of results.
pub proof fn lemma_lower_threshold_flags_more(
    recs: Seq<TunasyncStatus>,
    lower: int,
    higher: int,
    now: int,
    failed_only: bool,
)
    requires
        lower <= higher,
    ensures
        stale_results(recs, higher, now, failed_only).len() <= stale_results(
            recs,
            lower,
            now,
            failed_only,
        ).len(),
    decreases recs.len(),
{
    if recs.len() > 0 {
        lemma_lower_threshold_flags_more(recs.drop_last(), lower, higher, now, failed_only);
        assert(higher * 86400 >= lower * 86400) by (nonlinear_arith)
            requires
                lower <= higher,
        ;
    }
}

/// In any list, a record that was never updated contributes nothing: the
/// results are those of the records before it followed by those after it.
pub proof fn lemma_never_updated_in_list(
    recs: Seq<TunasyncStatus>,
    i: int,
    threshold: int,
    now: int,
    failed_only: bool,
)
    requires
        0 <= i < recs.len(),
        recs[i].last_update_ts == 0,
    ensures
        stale_results(recs, threshold, now, failed_only) == stale_results(
            recs.subrange(0, i),
            threshold,
            now,
            failed_only,
        ) + stale_results(recs.subrange(i + 1, recs.len() as int), threshold, now, failed_only),
{
    let a = recs.subrange(0, i);
    let b = recs.subrange(i + 1, recs.len() as int);
    assert(recs =~= a + seq![recs[i]] + b);
    lemma_stale_results_concat(a + seq![recs[i]], b, threshold, now, failed_only);
    lemma_stale_results_concat(a, seq![recs[i]], threshold, now, failed_only);
    lemma_never_updated_not_flagged(recs[i], threshold, now, failed_only);
    assert(stale_results(a, threshold, now, failed_only) + Seq::empty() =~= stale_results(
        a,
        threshold,
        now,
        failed_only,
    ));
}

/// In any list, a record updated once and older than the threshold
/// contributes exactly one result, its name and whole days since its last
/// update, between the results of the records before it and after it.
pub proof fn lemma_overdue_in_list(
    recs: Seq<TunasyncStatus>,
    i: int,
    threshold: int,
    now: int,
    failed_only: bool,
)
    requires
        0 <= i < recs.len(),
        recs[i].last_update_ts > 0,
        now - recs[i].last_update_ts > threshold * 86400,
        !failed_only || recs[i].status@ == "failed"@,
    ensures
        stale_results(recs, threshold, now, failed_only) == stale_results(
            recs.subrange(0, i),
            threshold,
            now,
            failed_only,
        ) + seq![(recs[i].name@, day_count(now - recs[i].last_update_ts))] + stale_results(
            recs.subrange(i + 1, recs.len() as int),
            threshold,
            now,
            failed_only,
        ),
{
    let a = recs.subrange(0, i);
    let b = recs.subrange(i + 1, recs.len() as int);
    assert(recs =~= a + seq![recs[i]] + b);
    lemma_stale_results_concat(a + seq![recs[i]], b, threshold, now, failed_only);
    lemma_stale_results_concat(a, seq![recs[i]], threshold, now, failed_only);
    lemma_overdue_flagged_once(recs[i], threshold, now, failed_only);
}

} // verus!
