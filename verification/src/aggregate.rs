//! Merging per-source fetch results into one deterministic entry list,
//! and the freshness-bounded cache policy.
//!
//! Entries are keyed by `id`; on a collision the later-processed entry
//! wins and keeps the earlier one's position, and the final list is
//! sorted by timestamp descending with that position order breaking
//! ties.  The whole pipeline is a function of the input order alone, so
//! a fixed source-processing order reproduces the same list every run.

use vstd::prelude::*;
use crate::entry::{CachedFeed, Entry, LoadingState};

verus! {

/// Seconds a cached category stays fresh.
pub const REFRESH_INTERVAL: i64 = 120;

/// Per-source results in processing order, flattened in that order.
pub open spec fn spec_flatten(batches: Seq<Seq<Entry>>) -> Seq<Entry>
    decreases batches.len(),
{
    if batches.len() == 0 {
        Seq::empty()
    } else {
        batches[0] + spec_flatten(batches.drop_first())
    }
}

/// Index of the first entry with the given id, or -1.
pub open spec fn spec_find_id(s: Seq<Entry>, id: i64) -> int
    decreases s.len(),
{
    if s.len() == 0 {
        -1
    } else if s[0].id == id {
        0
    } else {
        let r = spec_find_id(s.drop_first(), id);
        if r < 0 {
            -1
        } else {
            r + 1
        }
    }
}

/// Some entry of `s` carries `id`.
pub open spec fn contains_id(s: Seq<Entry>, id: i64) -> bool {
    exists|i: int| 0 <= i < s.len() && s[i].id == id
}

/// No two entries of `s` share an id.
pub open spec fn distinct_ids(s: Seq<Entry>) -> bool {
    forall|i: int, j: int| 0 <= i < j < s.len() ==> s[i].id != s[j].id
}

/// One if the entry carries `id`.
pub open spec fn id_ind(e: Entry, id: i64) -> nat {
    if e.id == id {
        1
    } else {
        0
    }
}

/// How many entries of `s` carry `id`.
pub open spec fn count_id(s: Seq<Entry>, id: i64) -> nat
    decreases s.len(),
{
    if s.len() == 0 {
        0
    } else {
        count_id(s.drop_first(), id) + id_ind(s[0], id)
    }
}

pub proof fn lemma_find_id(s: Seq<Entry>, id: i64)
    ensures
        spec_find_id(s, id) < 0 ==> forall|j: int| 0 <= j < s.len() ==> s[j].id != id,
        spec_find_id(s, id) >= 0 ==> {
            let k = spec_find_id(s, id);
            &&& k < s.len()
            &&& s[k].id == id
            &&& forall|j: int| 0 <= j < k ==> s[j].id != id
        },
    decreases s.len(),
{
    if s.len() == 0 {
    } else if s[0].id == id {
    } else {
        lemma_find_id(s.drop_first(), id);
        assert(forall|j: int|
            1 <= j < s.len() ==> s[j] == s.drop_first()[j - 1]);
    }
}

/// Last-write-wins dedup by id, scanning `s` left to right into `acc`:
/// a repeated id replaces the entry in place, a new id is appended.
pub open spec fn dedup_acc(s: Seq<Entry>, acc: Seq<Entry>) -> Seq<Entry>
    decreases s.len(),
{
    if s.len() == 0 {
        acc
    } else {
        let k = spec_find_id(acc, s[0].id);
        let acc2 = if k >= 0 {
            acc.update(k, s[0])
        } else {
            acc.push(s[0])
        };
        dedup_acc(s.drop_first(), acc2)
    }
}

/// The dedup of a whole scan.
pub open spec fn spec_dedup(s: Seq<Entry>) -> Seq<Entry> {
    dedup_acc(s, Seq::empty())
}

/// Stable insertion into a timestamp-descending list: `e` goes after
/// every entry with an equal or larger timestamp.
pub open spec fn spec_insert_desc(s: Seq<Entry>, e: Entry) -> Seq<Entry>
    decreases s.len(),
{
    if s.len() == 0 {
        seq![e]
    } else if s[0].timestamp < e.timestamp {
        seq![e] + s
    } else {
        seq![s[0]] + spec_insert_desc(s.drop_first(), e)
    }
}

/// Stable insertion sort by timestamp descending.
pub open spec fn sort_acc(s: Seq<Entry>, acc: Seq<Entry>) -> Seq<Entry>
    decreases s.len(),
{
    if s.len() == 0 {
        acc
    } else {
        sort_acc(s.drop_first(), spec_insert_desc(acc, s[0]))
    }
}

/// The sorted form of `s`.
pub open spec fn spec_sort_desc(s: Seq<Entry>) -> Seq<Entry> {
    sort_acc(s, Seq::empty())
}

/// What merging per-source batches returns: flatten in processing
/// order, dedup last-write-wins by id, sort by timestamp descending.
pub open spec fn spec_merge(batches: Seq<Seq<Entry>>) -> Seq<Entry> {
    spec_sort_desc(spec_dedup(spec_flatten(batches)))
}

/// Timestamps never increase along `s`.
pub open spec fn sorted_desc(s: Seq<Entry>) -> bool {
    forall|i: int, j: int| 0 <= i < j < s.len() ==> s[i].timestamp >= s[j].timestamp
}

pub proof fn lemma_insert_sorted(s: Seq<Entry>, e: Entry)
    requires
        sorted_desc(s),
    ensures
        sorted_desc(spec_insert_desc(s, e)),
        spec_insert_desc(s, e).len() == s.len() + 1,
    decreases s.len(),
{
    if s.len() == 0 {
    } else if s[0].timestamp < e.timestamp {
        let r = seq![e] + s;
        assert(forall|j: int| 1 <= j < r.len() ==> r[j] == s[j - 1]);
    } else {
        assert(sorted_desc(s.drop_first()));
        lemma_insert_sorted(s.drop_first(), e);
        let t = spec_insert_desc(s.drop_first(), e);
        let r = seq![s[0]] + t;
        assert(forall|j: int| 1 <= j < r.len() ==> r[j] == t[j - 1]);
        assert forall|j: int| 1 <= j < r.len() implies s[0].timestamp >= r[j].timestamp by {
            lemma_insert_members(s.drop_first(), e, j - 1);
        }
    }
}

/// Every element of an insertion result is the inserted entry or came
/// from the list.
proof fn lemma_insert_members(s: Seq<Entry>, e: Entry, j: int)
    requires
        0 <= j < spec_insert_desc(s, e).len(),
    ensures
        spec_insert_desc(s, e)[j] == e || exists|i: int| 0 <= i < s.len() && s[i] == spec_insert_desc(
            s,
            e,
        )[j],
    decreases s.len(),
{
    if s.len() == 0 {
    } else if s[0].timestamp < e.timestamp {
        let r = seq![e] + s;
        if j > 0 {
            assert(r[j] == s[j - 1]);
        }
    } else {
        let t = spec_insert_desc(s.drop_first(), e);
        let r = seq![s[0]] + t;
        if j > 0 {
            assert(r[j] == t[j - 1]);
            lemma_insert_members(s.drop_first(), e, j - 1);
            if t[j - 1] != e {
                let i = choose|i: int| 0 <= i < s.drop_first().len() && s.drop_first()[i] == t[j
                    - 1];
                assert(s[i + 1] == t[j - 1]);
            }
        }
    }
}

pub proof fn lemma_sort_acc_sorted(s: Seq<Entry>, acc: Seq<Entry>)
    requires
        sorted_desc(acc),
    ensures
        sorted_desc(sort_acc(s, acc)),
    decreases s.len(),
{
    if s.len() == 0 {
    } else {
        lemma_insert_sorted(acc, s[0]);
        lemma_sort_acc_sorted(s.drop_first(), spec_insert_desc(acc, s[0]));
    }
}

/// The merged list is sorted by timestamp descending.
///
/// For any merged list, timestamps are non-increasing.
pub proof fn lemma_merge_sorted(batches: Seq<Seq<Entry>>)
    ensures
        sorted_desc(spec_merge(batches)),
{
    lemma_sort_acc_sorted(spec_dedup(spec_flatten(batches)), Seq::empty());
}

/// Merging is a function of the batches alone: the same per-source
/// responses in the same processing order always yield the same list,
/// id for id and position for position.
pub proof fn lemma_merge_deterministic(a: Seq<Seq<Entry>>, b: Seq<Seq<Entry>>)
    requires
        a == b,
    ensures
        spec_merge(a) == spec_merge(b),
{
}

proof fn lemma_insert_count(s: Seq<Entry>, e: Entry, id: i64)
    ensures
        count_id(spec_insert_desc(s, e), id) == count_id(s, id) + id_ind(e, id),
    decreases s.len(),
{
    if s.len() == 0 {
        let r = seq![e];
        assert(r.drop_first() =~= Seq::<Entry>::empty());
        assert(r[0] == e);
        assert(count_id(r, id) == count_id(r.drop_first(), id) + id_ind(e, id));
    } else if s[0].timestamp < e.timestamp {
        let r = seq![e] + s;
        assert(r.drop_first() =~= s);
        assert(r[0] == e);
        assert(count_id(r, id) == count_id(r.drop_first(), id) + id_ind(e, id));
    } else {
        lemma_insert_count(s.drop_first(), e, id);
        let t = spec_insert_desc(s.drop_first(), e);
        let r = seq![s[0]] + t;
        assert(r.drop_first() =~= t);
        assert(r[0] == s[0]);
        assert(count_id(r, id) == count_id(t, id) + id_ind(s[0], id));
        assert(count_id(s, id) == count_id(s.drop_first(), id) + id_ind(s[0], id));
    }
}

proof fn lemma_sort_acc_count(s: Seq<Entry>, acc: Seq<Entry>, id: i64)
    ensures
        count_id(sort_acc(s, acc), id) == count_id(s, id) + count_id(acc, id),
    decreases s.len(),
{
    if s.len() == 0 {
    } else {
        lemma_insert_count(acc, s[0], id);
        lemma_sort_acc_count(s.drop_first(), spec_insert_desc(acc, s[0]), id);
    }
}

proof fn lemma_dedup_acc_ids(s: Seq<Entry>, acc: Seq<Entry>, id: i64)
    requires
        distinct_ids(acc),
    ensures
        distinct_ids(dedup_acc(s, acc)),
        contains_id(dedup_acc(s, acc), id) <==> contains_id(s, id) || contains_id(acc, id),
    decreases s.len(),
{
    if s.len() == 0 {
    } else {
        let k = spec_find_id(acc, s[0].id);
        lemma_find_id(acc, s[0].id);
        let acc2 = if k >= 0 {
            acc.update(k, s[0])
        } else {
            acc.push(s[0])
        };
        assert(distinct_ids(acc2));
        lemma_dedup_acc_ids(s.drop_first(), acc2, id);
        assert(forall|j: int| 1 <= j < s.len() ==> s[j] == s.drop_first()[j - 1]);
        if contains_id(s, id) || contains_id(acc, id) {
            if s[0].id == id {
                if k >= 0 {
                    assert(acc2[k].id == id);
                } else {
                    assert(acc2[acc.len() as int].id == id);
                }
                assert(contains_id(acc2, id));
            } else if contains_id(s, id) {
                let i = choose|i: int| 0 <= i < s.len() && s[i].id == id;
                assert(s.drop_first()[i - 1].id == id);
                assert(contains_id(s.drop_first(), id));
            } else {
                let i = choose|i: int| 0 <= i < acc.len() && acc[i].id == id;
                assert(acc2[i].id == id);
            }
        }
        if contains_id(dedup_acc(s, acc), id) {
            if !contains_id(s.drop_first(), id) {
                assert(contains_id(acc2, id));
                let i = choose|i: int| 0 <= i < acc2.len() && acc2[i].id == id;
                if k >= 0 && i == k {
                    assert(s[0].id == id);
                } else if i < acc.len() {
                    assert(acc[i].id == id);
                } else {
                    assert(s[0].id == id);
                }
            }
        }
    }
}

/// Count one for a distinct list that contains the id.
proof fn lemma_distinct_count(s: Seq<Entry>, id: i64)
    requires
        distinct_ids(s),
    ensures
        contains_id(s, id) ==> count_id(s, id) == 1,
        !contains_id(s, id) ==> count_id(s, id) == 0,
    decreases s.len(),
{
    if s.len() == 0 {
    } else {
        assert(forall|j: int| 1 <= j < s.len() ==> s[j] == s.drop_first()[j - 1]);
        assert(distinct_ids(s.drop_first()));
        lemma_distinct_count(s.drop_first(), id);
        if s[0].id == id {
            assert(!contains_id(s.drop_first(), id));
        } else {
            if contains_id(s, id) {
                let i = choose|i: int| 0 <= i < s.len() && s[i].id == id;
                assert(s.drop_first()[i - 1].id == id);
            }
        }
    }
}

/// However many input entries collide on one id, exactly one entry with
/// that id survives the merge; no id appears that was not in the input.
pub proof fn lemma_merge_collision(batches: Seq<Seq<Entry>>, id: i64)
    ensures
        contains_id(spec_flatten(batches), id) ==> count_id(spec_merge(batches), id) == 1,
        !contains_id(spec_flatten(batches), id) ==> count_id(spec_merge(batches), id) == 0,
{
    let flat = spec_flatten(batches);
    let ded = spec_dedup(flat);
    lemma_dedup_acc_ids(flat, Seq::empty(), id);
    lemma_distinct_count(ded, id);
    lemma_sort_acc_count(ded, Seq::empty(), id);
}

/// No id ever appears twice in a merged list: the merge behaves as an
/// id-keyed map however many sources repeat an id.
pub proof fn lemma_merge_unique_ids(batches: Seq<Seq<Entry>>)
    ensures
        forall|id: i64| #[trigger] count_id(spec_merge(batches), id) <= 1,
{
    assert forall|id: i64| #[trigger] count_id(spec_merge(batches), id) <= 1 by {
        lemma_merge_collision(batches, id);
    }
}

/// First index in `acc` holding `id`, scanning forward.
fn find_entry(acc: &Vec<Entry>, id: i64) -> (r: Option<usize>)
    ensures
        r matches Some(j) ==> j == spec_find_id(acc@, id),
        r is None ==> spec_find_id(acc@, id) < 0,
{
    let n = acc.len();
    let mut i: usize = 0;
    while i < n
        invariant
            n == acc@.len(),
            i <= n,
            forall|j: int| 0 <= j < i ==> acc@[j].id != id,
        decreases n - i,
    {
        if acc[i].id == id {
            proof {
                lemma_find_id(acc@, id);
            }
            return Some(i);
        }
        i = i + 1;
    }
    proof {
        lemma_find_id(acc@, id);
        if spec_find_id(acc@, id) >= 0 {
            assert(acc@[spec_find_id(acc@, id)].id == id);
        }
    }
    None
}

/// Merges per-source batches, in processing order, into one list:
/// last write wins on an id collision, the result is sorted by
/// timestamp descending, and ties keep first-appearance order.
pub fn merge_entries(batches: &Vec<Vec<Entry>>) -> (r: Vec<Entry>)
    ensures
        r@ == spec_merge(batches@.map_values(|b: Vec<Entry>| b@)),
        sorted_desc(r@),
{
    let ghost bv = batches@.map_values(|b: Vec<Entry>| b@);
    // Flatten in processing order.
    let mut flat: Vec<Entry> = Vec::new();
    let mut bi: usize = 0;
    proof {
        assert(bv.skip(0) =~= bv);
        assert(Seq::<Entry>::empty() + spec_flatten(bv) =~= spec_flatten(bv));
    }
    while bi < batches.len()
        invariant
            bi <= batches@.len(),
            bv == batches@.map_values(|b: Vec<Entry>| b@),
            spec_flatten(bv) == flat@ + spec_flatten(bv.skip(bi as int)),
        decreases batches@.len() - bi,
    {
        let batch = &batches[bi];
        let mut ei: usize = 0;
        proof {
            assert(bv.skip(bi as int)[0] == bv[bi as int]);
            assert(bv.skip(bi as int).drop_first() =~= bv.skip(bi as int + 1));
            assert(bv[bi as int] == batch@);
            assert(batch@.skip(0) =~= batch@);
            assert((flat@ + batch@) + spec_flatten(bv.skip(bi as int + 1)) =~= flat@ + (batch@
                + spec_flatten(bv.skip(bi as int + 1))));
        }
        while ei < batch.len()
            invariant
                ei <= batch@.len(),
                spec_flatten(bv) == flat@ + batch@.skip(ei as int) + spec_flatten(
                    bv.skip(bi as int + 1),
                ),
            decreases batch@.len() - ei,
        {
            flat.push(batch[ei].duplicate());
            proof {
                assert(batch@.skip(ei as int)[0] == batch@[ei as int]);
                assert(flat@ + batch@.skip(ei as int + 1) =~= flat@.drop_last() + batch@.skip(
                    ei as int,
                ));
            }
            ei = ei + 1;
        }
        proof {
            assert(batch@.skip(batch@.len() as int) =~= Seq::<Entry>::empty());
            assert(flat@ + Seq::<Entry>::empty() =~= flat@);
        }
        bi = bi + 1;
    }
    proof {
        assert(bv.skip(bv.len() as int) =~= Seq::<Seq<Entry>>::empty());
        assert(flat@ + Seq::<Entry>::empty() =~= flat@);
        assert(flat@ == spec_flatten(bv));
    }

    // Dedup by id, last write wins, keeping first-appearance positions.
    let mut acc: Vec<Entry> = Vec::new();
    let mut i: usize = 0;
    proof {
        assert(flat@.skip(0) =~= flat@);
    }
    while i < flat.len()
        invariant
            i <= flat@.len(),
            spec_dedup(flat@) == dedup_acc(flat@.skip(i as int), acc@),
        decreases flat@.len() - i,
    {
        let e = flat[i].duplicate();
        proof {
            assert(flat@.skip(i as int)[0] == flat@[i as int]);
            assert(flat@.skip(i as int).drop_first() =~= flat@.skip(i as int + 1));
        }
        match find_entry(&acc, e.id) {
            Some(j) => {
                proof {
                    lemma_find_id(acc@, e.id);
                }
                acc[j] = e;
            },
            None => {
                acc.push(e);
            },
        }
        i = i + 1;
    }
    proof {
        assert(flat@.skip(flat@.len() as int) =~= Seq::<Entry>::empty());
    }

    // Stable insertion sort by timestamp descending.
    let mut out: Vec<Entry> = Vec::new();
    let mut i: usize = 0;
    proof {
        assert(acc@.skip(0) =~= acc@);
    }
    while i < acc.len()
        invariant
            i <= acc@.len(),
            spec_sort_desc(acc@) == sort_acc(acc@.skip(i as int), out@),
            sorted_desc(out@),
        decreases acc@.len() - i,
    {
        let e = acc[i].duplicate();
        proof {
            assert(acc@.skip(i as int)[0] == acc@[i as int]);
            assert(acc@.skip(i as int).drop_first() =~= acc@.skip(i as int + 1));
            lemma_insert_sorted(out@, e);
        }
        let mut j: usize = 0;
        while j < out.len() && !(out[j].timestamp < e.timestamp)
            invariant
                j <= out@.len(),
                forall|t: int| 0 <= t < j ==> !(out@[t].timestamp < e.timestamp),
            decreases out@.len() - j,
        {
            j = j + 1;
        }
        proof {
            lemma_insert_at(out@, e, j as int);
        }
        out.insert(j, e);
        i = i + 1;
    }
    proof {
        assert(acc@.skip(acc@.len() as int) =~= Seq::<Entry>::empty());
    }
    out
}

/// The batches of the sources that succeeded, in processing order; a
/// failed source contributes nothing.
pub open spec fn successes(rs: Seq<Option<Vec<Entry>>>) -> Seq<Seq<Entry>>
    decreases rs.len(),
{
    if rs.len() == 0 {
        Seq::empty()
    } else {
        (match rs[0] {
            Some(b) => seq![b@],
            None => Seq::empty(),
        }) + successes(rs.drop_first())
    }
}

/// Merges the per-source fetch results of one category: a failed
/// source is swallowed, and even a fully failed round yields an empty
/// list, never an error.
pub fn merge_results(results: &Vec<Option<Vec<Entry>>>) -> (r: Vec<Entry>)
    ensures
        r@ == spec_merge(successes(results@)),
        sorted_desc(r@),
{
    let mut batches: Vec<Vec<Entry>> = Vec::new();
    let mut i: usize = 0;
    proof {
        assert(results@.skip(0) =~= results@);
        assert(Seq::<Seq<Entry>>::empty() + successes(results@) =~= successes(results@));
    }
    while i < results.len()
        invariant
            i <= results@.len(),
            successes(results@) == batches@.map_values(|b: Vec<Entry>| b@) + successes(
                results@.skip(i as int),
            ),
        decreases results@.len() - i,
    {
        proof {
            assert(results@.skip(i as int)[0] == results@[i as int]);
            assert(results@.skip(i as int).drop_first() =~= results@.skip(i as int + 1));
        }
        match &results[i] {
            Some(batch) => {
                batches.push(crate::entry::duplicate_entries(batch));
                proof {
                    let bv = batches@.map_values(|b: Vec<Entry>| b@);
                    assert(bv =~= batches@.drop_last().map_values(|b: Vec<Entry>| b@).push(
                        batches@.last()@,
                    ));
                    let a = batches@.drop_last().map_values(|b: Vec<Entry>| b@);
                    let x = results@[i as int].unwrap()@;
                    assert(a.push(x) =~= a + seq![x]);
                    assert((a + seq![x]) + successes(results@.skip(i as int + 1)) =~= a + (seq![
                        x] + successes(results@.skip(i as int + 1))));
                }
            },
            None => {
                proof {
                    assert(Seq::<Seq<Entry>>::empty() + successes(results@.skip(i as int + 1))
                        =~= successes(results@.skip(i as int + 1)));
                }
            },
        }
        i = i + 1;
    }
    proof {
        assert(successes(results@.skip(results@.len() as int)) =~= Seq::<Seq<Entry>>::empty());
        assert(batches@.map_values(|b: Vec<Entry>| b@) + Seq::<Seq<Entry>>::empty()
            =~= batches@.map_values(|b: Vec<Entry>| b@));
    }
    merge_entries(&batches)
}

/// Whether a cached category may be used in place of a network fetch.
pub open spec fn cache_fresh(created_at: int, n_entries: nat, now: int) -> bool {
    now - created_at < REFRESH_INTERVAL && n_entries > 0
}

/// What a cache read decides: reuse the cache, or go to the network.
#[derive(Clone, Copy, Debug, PartialEq, Eq, Structural)]
pub enum LoadAction {
    UseCache,
    Fetch,
}

/// Decides whether the cached entries may stand in for a fetch: they may
/// if and only if a cache is present, non-empty, and younger than the
/// freshness window.  A manual refresh bypasses this decision entirely.
pub fn load_decision(cached: &Option<CachedFeed>, now: i64) -> (r: LoadAction)
    ensures
        r == LoadAction::UseCache <==> (match cached {
            Some(c) => cache_fresh(c.created_at as int, c.entries@.len(), now as int),
            None => false,
        }),
{
    match cached {
        Some(c) => {
            let age = (now as i128) - (c.created_at as i128);
            if age < REFRESH_INTERVAL as i128 && c.entries.len() > 0 {
                LoadAction::UseCache
            } else {
                LoadAction::Fetch
            }
        },
        None => LoadAction::Fetch,
    }
}

/// Wraps a merged list for the per-category cache file: written only
/// after a non-empty merge, stamped with the current epoch second.
pub fn make_cache(entries: &Vec<Entry>, now: i64) -> (r: Option<CachedFeed>)
    ensures
        entries@.len() > 0 ==> (r matches Some(c) && c.entries@ == entries@ && c.created_at
            == now),
        entries@.len() == 0 ==> r is None,
{
    if entries.len() > 0 {
        Some(CachedFeed { entries: crate::entry::duplicate_entries(entries), created_at: now })
    } else {
        None
    }
}

/// Whether the automatic background refresh fires: the freshness window
/// has passed since the last successful refresh and no fetch is in
/// flight.
pub fn auto_refresh_due(elapsed: i64, loading: &LoadingState) -> (r: bool)
    ensures
        r == (elapsed >= REFRESH_INTERVAL && !loading.is_loading),
{
    elapsed >= REFRESH_INTERVAL && !loading.is_loading
}

/// Inserting at the first index whose timestamp is smaller matches the
/// stable insertion spec.
proof fn lemma_insert_at(s: Seq<Entry>, e: Entry, j: int)
    requires
        0 <= j <= s.len(),
        forall|t: int| 0 <= t < j ==> !(s[t].timestamp < e.timestamp),
        j < s.len() ==> s[j].timestamp < e.timestamp,
    ensures
        spec_insert_desc(s, e) == s.insert(j, e),
    decreases s.len(),
{
    if s.len() == 0 {
        assert(spec_insert_desc(s, e) =~= s.insert(0, e));
    } else if s[0].timestamp < e.timestamp {
        assert(j == 0);
        assert(spec_insert_desc(s, e) =~= s.insert(0, e));
    } else {
        assert(j >= 1);
        assert(forall|t: int|
            0 <= t < j - 1 ==> s.drop_first()[t] == s[t + 1]);
        if j < s.len() {
            assert(s.drop_first()[j - 1] == s[j]);
        }
        lemma_insert_at(s.drop_first(), e, j - 1);
        assert(seq![s[0]] + s.drop_first().insert(j - 1, e) =~= s.insert(j, e));
    }
}

} // verus!
