use vstd::prelude::*;

verus! {

/// The character sequences of a list of strings.
pub open spec fn view_names(s: Seq<String>) -> Seq<Seq<char>> {
    s.map_values(|x: String| x@)
}

/// Each name of `s` once, at its first occurrence.
pub open spec fn first_occurrences(s: Seq<Seq<char>>) -> Seq<Seq<char>>
    decreases s.len(),
{
    if s.len() == 0 {
        Seq::empty()
    } else {
        let prev = first_occurrences(s.drop_last());
        if prev.contains(s.last()) {
            prev
        } else {
            prev.push(s.last())
        }
    }
}

/// Lexicographic order on strings, character by character by code point.
pub open spec fn str_le(a: Seq<char>, b: Seq<char>) -> bool
    decreases a.len(),
{
    if a.len() == 0 {
        true
    } else if b.len() == 0 {
        false
    } else if a[0] != b[0] {
        (a[0] as u32) < (b[0] as u32)
    } else {
        str_le(a.drop_first(), b.drop_first())
    }
}

/// Names in ascending lexicographic order.
pub open spec fn names_sorted(s: Seq<Seq<char>>) -> bool {
    forall|i: int, j: int| 0 <= i < j < s.len() ==> str_le(#[trigger] s[i], #[trigger] s[j])
}

/// The repository names of the buckets that the search backend returned.
pub open spec fn bucket_keys(b: Seq<(String, i64)>) -> Seq<Seq<char>> {
    b.map_values(|p: (String, i64)| p.0@)
}

/// The candidates that no bucket names, in candidate order.
pub open spec fn unused_of(cands: Seq<Seq<char>>, keys: Seq<Seq<char>>) -> Seq<Seq<char>>
    decreases cands.len(),
{
    if cands.len() == 0 {
        Seq::empty()
    } else {
        let prev = unused_of(cands.drop_last(), keys);
        if keys.contains(cands.last()) {
            prev
        } else {
            prev.push(cands.last())
        }
    }
}

/// The size annotations recorded for `name`, in the order they were recorded.
pub open spec fn sizes_for(entries: Seq<(String, String)>, name: Seq<char>) -> Seq<Seq<char>>
    decreases entries.len(),
{
    if entries.len() == 0 {
        Seq::empty()
    } else {
        let prev = sizes_for(entries.drop_last(), name);
        if entries.last().0@ == name {
            prev.push(entries.last().1@)
        } else {
            prev
        }
    }
}

/// Whether `name` is one of `list`.
pub fn contains_name(list: &Vec<String>, name: &String) -> (r: bool)
    ensures
        r == view_names(list@).contains(name@),
{
    let mut i: usize = 0;
    while i < list.len()
        invariant
            i <= list@.len(),
            forall|k: int| 0 <= k < i ==> list@[k]@ != name@,
        decreases list@.len() - i,
    {
        if list[i] == *name {
            assert(view_names(list@)[i as int] == name@);
            return true;
        }
        i = i + 1;
    }
    assert(!view_names(list@).contains(name@)) by {
        if view_names(list@).contains(name@) {
            let k = choose|k: int| 0 <= k < list@.len() && view_names(list@)[k] == name@;
            assert(list@[k]@ == name@);
        }
    }
    false
}

/// Relies on `slice::sort` for `String`, whose order compares the UTF-8
/// bytes lexicographically, which is the order of the code points: the same
/// strings, ascending.
#[verifier::external_body]
fn sort_strings(v: &mut Vec<String>)
    ensures
        view_names(final(v)@).to_multiset() == view_names(old(v)@).to_multiset(),
        names_sorted(view_names(final(v)@)),
{
    v.sort();
}

/// The names of `names` with each repeated name kept once, at its first
/// occurrence; sorted names stay sorted.
pub fn dedup_names(names: &Vec<String>) -> (r: Vec<String>)
    ensures
        view_names(r@) == first_occurrences(view_names(names@)),
        view_names(r@).no_duplicates(),
        forall|x: Seq<char>| view_names(r@).contains(x) <==> view_names(names@).contains(x),
        names_sorted(view_names(names@)) ==> names_sorted(view_names(r@)),
{
    let mut r: Vec<String> = Vec::new();
    let mut i: usize = 0;
    while i < names.len()
        invariant
            i <= names@.len(),
            view_names(r@).no_duplicates(),
            forall|x: Seq<char>|
                view_names(r@).contains(x) <==> view_names(names@.subrange(0, i as int)).contains(
                    x,
                ),
            names_sorted(view_names(names@)) ==> names_sorted(view_names(r@)),
            view_names(r@) == first_occurrences(view_names(names@.subrange(0, i as int))),
        decreases names@.len() - i,
    {
        let ghost prev = r@;
        let ghost pre = view_names(names@.subrange(0, i as int));
        let ghost post = view_names(names@.subrange(0, i + 1));
        assert(post =~= pre.push(names@[i as int]@));
        assert(post.drop_last() =~= pre);
        if !contains_name(&r, &names[i]) {
            r.push(names[i].clone());
            assert(view_names(r@) =~= view_names(prev).push(names@[i as int]@));
            proof {
                if names_sorted(view_names(names@)) {
                    assert forall|a: int, b: int| 0 <= a < b < r@.len() implies str_le(
                        #[trigger] view_names(r@)[a],
                        #[trigger] view_names(r@)[b],
                    ) by {
                        if b == r@.len() - 1 {
                            let y = view_names(prev)[a];
                            assert(view_names(prev).contains(y));
                            assert(pre.contains(y));
                            let k = choose|k: int| 0 <= k < pre.len() && pre[k] == y;
                            assert(view_names(names@)[k] == y);
                            assert(view_names(names@)[i as int] == names@[i as int]@);
                        } else {
                            assert(view_names(prev)[a] == view_names(r@)[a]);
                            assert(view_names(prev)[b] == view_names(r@)[b]);
                        }
                    }
                }
            }
        }
        assert forall|x: Seq<char>| view_names(r@).contains(x) <==> post.contains(x) by {
            if post.contains(x) && x != names@[i as int]@ {
                let k = choose|k: int| 0 <= k < post.len() && post[k] == x;
                assert(pre[k] == x);
            }
            if view_names(r@).contains(x) && x == names@[i as int]@ {
                assert(post[i as int] == x);
            }
            if pre.contains(x) {
                let k = choose|k: int| 0 <= k < pre.len() && pre[k] == x;
                assert(post[k] == x);
            }
            if view_names(prev).contains(x) {
                let k = choose|k: int| 0 <= k < prev.len() && view_names(prev)[k] == x;
                assert(view_names(r@)[k] == x);
            }
            if x == names@[i as int]@ && !view_names(prev).contains(x) {
                assert(view_names(r@)[r@.len() - 1] == x);
            }
        }
        i = i + 1;
    }
    assert(names@.subrange(0, names@.len() as int) =~= names@);
    r
}

/// The repositories to ask the search backend about: every name of `names`
/// once, in ascending order.
pub fn candidate_repos(names: &Vec<String>) -> (r: Vec<String>)
    ensures
        view_names(r@).no_duplicates(),
        names_sorted(view_names(r@)),
        forall|x: Seq<char>| view_names(r@).contains(x) <==> view_names(names@).contains(x),
{
    broadcast use vstd::seq_lib::group_to_multiset_ensures;

    let mut sorted: Vec<String> = Vec::new();
    let mut i: usize = 0;
    while i < names.len()
        invariant
            i <= names@.len(),
            sorted@ == names@.subrange(0, i as int),
        decreases names@.len() - i,
    {
        sorted.push(names[i].clone());
        i = i + 1;
        assert(sorted@ =~= names@.subrange(0, i as int));
    }
    assert(sorted@ =~= names@);
    sort_strings(&mut sorted);
    let r = dedup_names(&sorted);
    assert forall|x: Seq<char>| view_names(sorted@).contains(x) <==> view_names(names@).contains(
        x,
    ) by {
        view_names(sorted@).to_multiset_ensures();
        view_names(names@).to_multiset_ensures();
        assert(view_names(sorted@).to_multiset().count(x) == view_names(
            names@,
        ).to_multiset().count(x));
    }
    r
}

/// Whether some bucket is for `name`.
fn has_bucket(buckets: &Vec<(String, i64)>, name: &String) -> (r: bool)
    ensures
        r == bucket_keys(buckets@).contains(name@),
{
    let mut i: usize = 0;
    while i < buckets.len()
        invariant
            i <= buckets@.len(),
            forall|k: int| 0 <= k < i ==> buckets@[k].0@ != name@,
        decreases buckets@.len() - i,
    {
        if buckets[i].0 == *name {
            assert(bucket_keys(buckets@)[i as int] == name@);
            return true;
        }
        i = i + 1;
    }
    assert(!bucket_keys(buckets@).contains(name@)) by {
        if bucket_keys(buckets@).contains(name@) {
            let k = choose|k: int| 0 <= k < buckets@.len() && bucket_keys(buckets@)[k] == name@;
            assert(buckets@[k].0@ == name@);
        }
    }
    false
}

/// The candidate repositories for which the backend returned no bucket, in
/// candidate order: those with no recorded traffic.
pub fn unused_repos(candidates: &Vec<String>, buckets: &Vec<(String, i64)>) -> (r: Vec<String>)
    ensures
        view_names(r@) == unused_of(view_names(candidates@), bucket_keys(buckets@)),
{
    let mut r: Vec<String> = Vec::new();
    let mut i: usize = 0;
    while i < candidates.len()
        invariant
            i <= candidates@.len(),
            view_names(r@) == unused_of(
                view_names(candidates@.subrange(0, i as int)),
                bucket_keys(buckets@),
            ),
        decreases candidates@.len() - i,
    {
        let ghost prev = r@;
        assert(view_names(candidates@.subrange(0, i + 1)).drop_last() =~= view_names(
            candidates@.subrange(0, i as int),
        ));
        if !has_bucket(buckets, &candidates[i]) {
            r.push(candidates[i].clone());
            assert(view_names(r@) =~= view_names(prev).push(candidates@[i as int]@));
        }
        i = i + 1;
    }
    assert(candidates@.subrange(0, candidates@.len() as int) =~= candidates@);
    r
}

/// The size annotations recorded for `repo` among the (name, size) pairs
/// `entries`, in the order they were recorded.
pub fn sizes_of(entries: &Vec<(String, String)>, repo: &String) -> (r: Vec<String>)
    ensures
        view_names(r@) == sizes_for(entries@, repo@),
{
    let mut r: Vec<String> = Vec::new();
    let mut i: usize = 0;
    while i < entries.len()
        invariant
            i <= entries@.len(),
            view_names(r@) == sizes_for(entries@.subrange(0, i as int), repo@),
        decreases entries@.len() - i,
    {
        let ghost prev = r@;
        assert(entries@.subrange(0, i + 1).drop_last() =~= entries@.subrange(0, i as int));
        if entries[i].0 == *repo {
            r.push(entries[i].1.clone());
            assert(view_names(r@) =~= view_names(prev).push(entries@[i as int].1@));
        }
        i = i + 1;
    }
    assert(entries@.subrange(0, entries@.len() as int) =~= entries@);
    r
}

/// What the traffic query found: one entry per returned bucket (name, count
/// and the sizes recorded for it), then one per candidate with no bucket
/// (name and sizes).
pub struct TrafficReport {
    pub requested: Vec<(String, i64, Vec<String>)>,
    pub unused: Vec<(String, Vec<String>)>,
}

/// Pairs the buckets with the candidates: every bucket is reported with its
/// count, every candidate without a bucket as unused, each with the size
/// annotations that `entries` records for it.
pub fn cross_reference(
    candidates: &Vec<String>,
    buckets: &Vec<(String, i64)>,
    entries: &Vec<(String, String)>,
) -> (r: TrafficReport)
    ensures
        r.requested@.len() == buckets@.len(),
        forall|i: int|
            0 <= i < buckets@.len() ==> {
                &&& (#[trigger] r.requested@[i]).0@ == buckets@[i].0@
                &&& r.requested@[i].1 == buckets@[i].1
                &&& view_names(r.requested@[i].2@) == sizes_for(entries@, buckets@[i].0@)
            },
        r.unused@.len() == unused_of(view_names(candidates@), bucket_keys(buckets@)).len(),
        forall|i: int|
            0 <= i < r.unused@.len() ==> {
                &&& (#[trigger] r.unused@[i]).0@ == unused_of(
                    view_names(candidates@),
                    bucket_keys(buckets@),
                )[i]
                &&& view_names(r.unused@[i].1@) == sizes_for(entries@, r.unused@[i].0@)
            },
{
    let mut requested: Vec<(String, i64, Vec<String>)> = Vec::new();
    let mut i: usize = 0;
    while i < buckets.len()
        invariant
            i <= buckets@.len(),
            requested@.len() == i,
            forall|k: int|
                0 <= k < i ==> {
                    &&& (#[trigger] requested@[k]).0@ == buckets@[k].0@
                    &&& requested@[k].1 == buckets@[k].1
                    &&& view_names(requested@[k].2@) == sizes_for(entries@, buckets@[k].0@)
                },
        decreases buckets@.len() - i,
    {
        let sizes = sizes_of(entries, &buckets[i].0);
        requested.push((buckets[i].0.clone(), buckets[i].1, sizes));
        i = i + 1;
    }
    let names = unused_repos(candidates, buckets);
    let mut unused: Vec<(String, Vec<String>)> = Vec::new();
    let mut j: usize = 0;
    while j < names.len()
        invariant
            j <= names@.len(),
            unused@.len() == j,
            view_names(names@) == unused_of(view_names(candidates@), bucket_keys(buckets@)),
            forall|k: int|
                0 <= k < j ==> {
                    &&& (#[trigger] unused@[k]).0@ == names@[k]@
                    &&& view_names(unused@[k].1@) == sizes_for(entries@, unused@[k].0@)
                },
        decreases names@.len() - j,
    {
        let sizes = sizes_of(entries, &names[j]);
        unused.push((names[j].clone(), sizes));
        j = j + 1;
    }
    assert forall|k: int| 0 <= k < unused@.len() implies (#[trigger] unused@[k]).0@ == unused_of(
        view_names(candidates@),
        bucket_keys(buckets@),
    )[k] by {
        assert(view_names(names@)[k] == names@[k]@);
    }
    TrafficReport { requested, unused }
}

/// A name is among the unused ones exactly when it is a candidate and no
/// bucket names it.
pub proof fn lemma_unused_members(cands: Seq<Seq<char>>, keys: Seq<Seq<char>>, x: Seq<char>)
    ensures
        unused_of(cands, keys).contains(x) <==> (cands.contains(x) && !keys.contains(x)),
    decreases cands.len(),
{
    if cands.len() > 0 {
        let init = cands.drop_last();
        lemma_unused_members(init, keys, x);
        let prev = unused_of(init, keys);
        if prev.contains(x) {
            let k = choose|k: int| 0 <= k < prev.len() && prev[k] == x;
            if !keys.contains(cands.last()) {
                assert(prev.push(cands.last())[k] == x);
            }
            let j = choose|j: int| 0 <= j < init.len() && init[j] == x;
            assert(cands[j] == x);
        }
        if cands.contains(x) && !keys.contains(x) {
            let j = choose|j: int| 0 <= j < cands.len() && cands[j] == x;
            if j < cands.len() - 1 {
                assert(init[j] == x);
            } else {
                assert(prev.push(cands.last())[prev.len() as int] == x);
            }
        }
        if unused_of(cands, keys).contains(x) && !prev.contains(x) {
            assert(x == cands.last());
            assert(cands[cands.len() - 1] == x);
        }
    }
}

/// After the query, each candidate is reported exactly one way: among the
/// repositories with traffic when some bucket names it, among the unused ones
/// otherwise.
pub proof fn lemma_each_candidate_reported_once(
    cands: Seq<Seq<char>>,
    keys: Seq<Seq<char>>,
    c: Seq<char>,
)
    requires
        cands.contains(c),
    ensures
        keys.contains(c) != unused_of(cands, keys).contains(c),
{
    lemma_unused_members(cands, keys, c);
}

} // verus!
