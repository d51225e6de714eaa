use vstd::prelude::*;
use vstd::string::*;

verus! {

/// One repository's sync state, as a mirror server reports it.
pub struct TunasyncStatus {
    pub name: String,
    pub is_master: bool,
    pub status: String,
    pub last_update: String,
    pub last_update_ts: i64,
    pub last_ended: String,
    pub last_ended_ts: i64,
    pub next_schedule: Option<String>,
    pub next_schedule_ts: Option<i64>,
    pub upstream: String,
    pub size: String,
}

/// The user agent that status requests identify themselves with.
pub const USER_AGENT: &'static str = "tunasync-monitor";

/// Where a mirror server publishes its status list.
pub open spec fn status_url_of(server: Seq<char>) -> Seq<char> {
    "https://"@ + server + "/static/tunasync.json"@
}

/// The address of the status list of `server`.
pub fn status_url(server: &str) -> (r: String)
    ensures
        r@ == status_url_of(server@),
{
    let mut r = String::from_str("https://");
    r.append(server);
    r.append("/static/tunasync.json");
    proof {
        reveal_strlit("https://");
        reveal_strlit("/static/tunasync.json");
    }
    r
}

/// Records ordered from the most recently updated to the least.
pub open spec fn sorted_by_recency(s: Seq<TunasyncStatus>) -> bool {
    forall|i: int, j: int|
        0 <= i < j < s.len() ==> #[trigger] s[i].last_update_ts >= #[trigger] s[j].last_update_ts
}

/// `new` holds, at each position `i`, the record of `old` at position
/// `perm[i]`, and records with equal timestamps keep their order of `old`.
pub open spec fn stable_arrangement(
    new: Seq<TunasyncStatus>,
    old: Seq<TunasyncStatus>,
    perm: Seq<int>,
) -> bool {
    &&& perm.len() == new.len()
    &&& forall|i: int| 0 <= i < new.len() ==> 0 <= #[trigger] perm[i] < old.len() && new[i] == old[perm[i]]
    &&& forall|i: int, j: int|
        0 <= i < j < new.len() && new[i].last_update_ts == new[j].last_update_ts ==> #[trigger] perm[i]
            < #[trigger] perm[j]
}

proof fn lemma_insert_multiset(s: Seq<TunasyncStatus>, p: int, x: TunasyncStatus)
    requires
        0 <= p <= s.len(),
    ensures
        s.insert(p, x).to_multiset() =~= s.to_multiset().insert(x),
{
    broadcast use vstd::seq_lib::group_to_multiset_ensures;

    let t = s.insert(p, x);
    assert(t.remove(p) =~= s);
    assert(t.contains(x)) by {
        assert(t[p] == x);
    }
}

/// Puts the records in descending order of `last_update_ts`; records with
/// equal timestamps keep their relative order.
pub fn sort_by_recency(v: &mut Vec<TunasyncStatus>)
    ensures
        final(v)@.to_multiset() == old(v)@.to_multiset(),
        sorted_by_recency(final(v)@),
        exists|perm: Seq<int>| #[trigger] stable_arrangement(final(v)@, old(v)@, perm),
{
    broadcast use vstd::seq_lib::group_to_multiset_ensures;

    let ghost orig = v@;
    let mut sorted: Vec<TunasyncStatus> = Vec::new();
    let ghost mut perm: Seq<int> = Seq::empty();
    while v.len() > 0
        invariant
            sorted_by_recency(sorted@),
            v@.len() <= orig.len(),
            v@ == orig.subrange(0, v@.len() as int),
            stable_arrangement(sorted@, orig, perm),
            forall|k: int| 0 <= k < perm.len() ==> #[trigger] perm[k] >= v@.len(),
            sorted@.to_multiset().add(v@.to_multiset()) == orig.to_multiset(),
        decreases v.len(),
    {
        let ghost before = v@;
        let item = v.pop().unwrap();
        assert(before =~= v@.push(item));
        assert(v@ =~= orig.subrange(0, v@.len() as int));
        assert(item == orig[v@.len() as int]);
        let mut p: usize = 0;
        while p < sorted.len() && sorted[p].last_update_ts > item.last_update_ts
            invariant
                p <= sorted.len(),
                forall|k: int| 0 <= k < p ==> sorted@[k].last_update_ts > item.last_update_ts,
            decreases sorted.len() - p,
        {
            p = p + 1;
        }
        let ghost old_sorted = sorted@;
        proof {
            lemma_insert_multiset(old_sorted, p as int, item);
        }
        sorted.insert(p, item);
        let ghost old_perm = perm;
        proof {
            perm = old_perm.insert(p as int, v@.len() as int);
        }
        assert forall|i: int, j: int|
            0 <= i < j < sorted@.len() && sorted@[i].last_update_ts == sorted@[j].last_update_ts
                implies #[trigger] perm[i] < #[trigger] perm[j] by {
            if j < p {
                assert(old_sorted[i].last_update_ts == old_sorted[j].last_update_ts);
            } else if j == p {
                assert(old_sorted[i].last_update_ts > item.last_update_ts);
            } else if i < p {
                assert(old_sorted[i].last_update_ts == old_sorted[j - 1].last_update_ts);
            } else if i == p {
                assert(old_perm[j - 1] >= v@.len() + 1);
            } else {
                assert(old_sorted[i - 1].last_update_ts == old_sorted[j - 1].last_update_ts);
            }
        }
        assert forall|i: int| 0 <= i < sorted@.len() implies 0 <= #[trigger] perm[i] < orig.len()
            && sorted@[i] == orig[perm[i]] by {
            if i < p {
                assert(sorted@[i] == old_sorted[i]);
            } else if i > p {
                assert(sorted@[i] == old_sorted[i - 1]);
            }
        }
        assert forall|k: int| 0 <= k < perm.len() implies #[trigger] perm[k] >= v@.len() by {
            if k < p {
                assert(perm[k] == old_perm[k]);
            } else if k > p {
                assert(perm[k] == old_perm[k - 1]);
            }
        }
        assert forall|i: int, j: int| 0 <= i < j < sorted@.len() implies
            #[trigger] sorted@[i].last_update_ts >= #[trigger] sorted@[j].last_update_ts by {
            if j < p {
            } else if j == p {
            } else if i < p {
                assert(old_sorted[i].last_update_ts > item.last_update_ts);
                assert(item.last_update_ts >= old_sorted[p as int].last_update_ts);
            } else if i == p {
                assert(item.last_update_ts >= old_sorted[p as int].last_update_ts);
                assert(old_sorted[p as int].last_update_ts >= old_sorted[j - 1].last_update_ts);
            } else {
                assert(old_sorted[i - 1].last_update_ts >= old_sorted[j - 1].last_update_ts);
            }
        }
        assert(before.to_multiset() =~= v@.push(item).to_multiset());
        proof {
            v@.to_multiset_ensures();
        }
        assert(v@.push(item).to_multiset() =~= v@.to_multiset().insert(item));
        assert(sorted@.to_multiset() =~= old_sorted.to_multiset().insert(item));
        assert(sorted@.to_multiset().add(v@.to_multiset()) =~= orig.to_multiset());
    }
    assert(v@.to_multiset() =~= vstd::multiset::Multiset::empty());
    assert(stable_arrangement(sorted@, orig, perm));
    *v = sorted;
}

} // verus!
