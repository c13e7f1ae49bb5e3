//! The pure steps of the translation pipeline: collecting canonical
//! titles, splitting them into cached and uncached, building the batch
//! request, cleaning and ingesting the backend's reply, and applying
//! translations to live entries.
//!
//! The backend call itself runs outside; everything here is a function
//! of plain values.  The translation cache is an append-or-replace map
//! from original title to translation whose keys never repeat.

use vstd::prelude::*;
use crate::entry::Entry;
use crate::text::{str_chars, chars_to_string, has_prefix_at};

verus! {

/// Views of an association list's pairs.
pub open spec fn pairs_view(s: Seq<(String, String)>) -> Seq<(Seq<char>, Seq<char>)> {
    s.map_values(|p: (String, String)| (p.0@, p.1@))
}

/// Index of the first pair keyed by `k`, or -1.
pub open spec fn spec_find_key(m: Seq<(Seq<char>, Seq<char>)>, k: Seq<char>) -> int
    decreases m.len(),
{
    if m.len() == 0 {
        -1
    } else if m[0].0 == k {
        0
    } else {
        let r = spec_find_key(m.drop_first(), k);
        if r < 0 {
            -1
        } else {
            r + 1
        }
    }
}

/// The translation stored under `k`, by first match.
pub open spec fn spec_lookup(m: Seq<(Seq<char>, Seq<char>)>, k: Seq<char>) -> Option<Seq<char>>
    decreases m.len(),
{
    if m.len() == 0 {
        None
    } else if m[0].0 == k {
        Some(m[0].1)
    } else {
        spec_lookup(m.drop_first(), k)
    }
}

/// Lookup succeeds exactly where a key index exists, and serves that
/// pair.
pub proof fn lemma_lookup_find(m: Seq<(Seq<char>, Seq<char>)>, k: Seq<char>)
    ensures
        spec_lookup(m, k) == if spec_find_key(m, k) >= 0 {
            Some(m[spec_find_key(m, k)].1)
        } else {
            Option::<Seq<char>>::None
        },
    decreases m.len(),
{
    if m.len() == 0 {
    } else if m[0].0 == k {
    } else {
        lemma_lookup_find(m.drop_first(), k);
        lemma_find_key(m, k);
        lemma_find_key(m.drop_first(), k);
        if spec_find_key(m.drop_first(), k) >= 0 {
            assert(m[spec_find_key(m, k)] == m.drop_first()[spec_find_key(m.drop_first(), k)]);
        }
    }
}

/// No two pairs share a key.
pub open spec fn distinct_keys(m: Seq<(Seq<char>, Seq<char>)>) -> bool {
    forall|i: int, j: int| 0 <= i < j < m.len() ==> m[i].0 != m[j].0
}

pub proof fn lemma_find_key(m: Seq<(Seq<char>, Seq<char>)>, k: Seq<char>)
    ensures
        spec_find_key(m, k) < 0 ==> forall|j: int| 0 <= j < m.len() ==> m[j].0 != k,
        spec_find_key(m, k) >= 0 ==> {
            let i = spec_find_key(m, k);
            &&& i < m.len()
            &&& m[i].0 == k
            &&& forall|j: int| 0 <= j < i ==> m[j].0 != k
        },
    decreases m.len(),
{
    if m.len() == 0 {
    } else if m[0].0 == k {
    } else {
        lemma_find_key(m.drop_first(), k);
        assert(forall|j: int| 1 <= j < m.len() ==> m[j] == m.drop_first()[j - 1]);
    }
}

/// The append-only translation cache: original title to translation,
/// persisted after every enrichment run.
pub struct TranslationCache {
    pub pairs: Vec<(String, String)>,
}

impl TranslationCache {
    /// The mapping this cache holds.
    pub open spec fn map(&self) -> Seq<(Seq<char>, Seq<char>)> {
        pairs_view(self.pairs@)
    }

    /// Keys never repeat.
    pub open spec fn wf(&self) -> bool {
        distinct_keys(self.map())
    }

    /// An empty cache.
    pub fn new() -> (r: TranslationCache)
        ensures
            r.wf(),
            r.map().len() == 0,
    {
        TranslationCache { pairs: Vec::new() }
    }

    /// Builds a cache from loaded pairs, keeping the first pair of any
    /// repeated key.
    pub fn from_pairs(pairs: Vec<(String, String)>) -> (r: TranslationCache)
        ensures
            r.wf(),
            forall|k: Seq<char>|
                #![trigger spec_lookup(r.map(), k)]
                spec_lookup(r.map(), k) == spec_lookup(pairs_view(pairs@), k),
    {
        let mut out: Vec<(String, String)> = Vec::new();
        let mut i: usize = 0;
        proof {
            assert(pairs@.take(0int) =~= Seq::<(String, String)>::empty());
        }
        while i < pairs.len()
            invariant
                i <= pairs@.len(),
                distinct_keys(pairs_view(out@)),
                forall|k: Seq<char>|
                    #![trigger spec_lookup(pairs_view(out@), k)]
                    spec_lookup(pairs_view(out@), k) == spec_lookup(
                        pairs_view(pairs@.take(i as int)),
                        k,
                    ),
            decreases pairs@.len() - i,
        {
            let k = pairs[i].0.clone();
            let present = find_key(&out, &k);
            proof {
                lemma_find_key(pairs_view(out@), k@);
            }
            let ghost pre = pairs_view(out@);
            match present {
                Some(_) => {
                },
                None => {
                    let v = pairs[i].1.clone();
                    out.push((k, v));
                },
            }
            proof {
                assert(pairs@.take(i as int + 1) =~= pairs@.take(i as int).push(
                    pairs@[i as int],
                ));
                assert(pairs_view(pairs@.take(i as int + 1)) =~= pairs_view(
                    pairs@.take(i as int),
                ).push((pairs@[i as int].0@, pairs@[i as int].1@)));
                if present is None {
                    assert(pairs_view(out@) =~= pre.push(
                        (pairs@[i as int].0@, pairs@[i as int].1@),
                    ));
                }
                assert forall|q: Seq<char>| true implies #[trigger] spec_lookup(
                    pairs_view(out@),
                    q,
                ) == spec_lookup(pairs_view(pairs@.take(i as int + 1)), q) by {
                    lemma_lookup_push_k(
                        pairs_view(pairs@.take(i as int)),
                        (pairs@[i as int].0@, pairs@[i as int].1@),
                        q,
                    );
                    lemma_lookup_find(pre, q);
                    if present is None {
                        lemma_lookup_push_k(
                            pre,
                            (pairs@[i as int].0@, pairs@[i as int].1@),
                            q,
                        );
                    } else {
                        lemma_find_key(pre, pairs@[i as int].0@);
                        lemma_lookup_find(pre, pairs@[i as int].0@);
                    }
                }
            }
            i = i + 1;
        }
        proof {
            assert(pairs@.take(pairs@.len() as int) =~= pairs@);
        }
        TranslationCache { pairs: out }
    }
}

/// Appending a pair leaves old keys' lookups alone and serves the new
/// key, if absent before, from the new pair.
proof fn lemma_lookup_push_k(
    m: Seq<(Seq<char>, Seq<char>)>,
    p: (Seq<char>, Seq<char>),
    k: Seq<char>,
)
    ensures
        spec_lookup(m.push(p), k) == if spec_lookup(m, k) is Some {
            spec_lookup(m, k)
        } else if p.0 == k {
            Some(p.1)
        } else {
            Option::<Seq<char>>::None
        },
    decreases m.len(),
{
    if m.len() == 0 {
        assert(m.push(p)[0] == p);
        assert(m.push(p).drop_first() =~= Seq::<(Seq<char>, Seq<char>)>::empty());
        assert(spec_lookup(m, k) is None);
        if p.0 == k {
            assert(spec_lookup(m.push(p), k) == Some(p.1));
        } else {
            assert(spec_lookup(m.push(p), k) == spec_lookup(
                m.push(p).drop_first(),
                k,
            ));
            assert(spec_lookup(m.push(p), k) is None);
        }
    } else {
        lemma_lookup_push_k(m.drop_first(), p, k);
        assert(m.push(p)[0] == m[0]);
        assert(m.push(p).drop_first() =~= m.drop_first().push(p));
        if m[0].0 == k {
            assert(spec_lookup(m.push(p), k) == Some(m[0].1));
            assert(spec_lookup(m, k) == Some(m[0].1));
        } else {
            assert(spec_lookup(m.push(p), k) == spec_lookup(m.drop_first().push(p), k));
            assert(spec_lookup(m, k) == spec_lookup(m.drop_first(), k));
        }
    }
}

/// First index in `pairs` keyed by `k`, scanning forward.
pub fn find_key(pairs: &Vec<(String, String)>, k: &String) -> (r: Option<usize>)
    ensures
        r matches Some(j) ==> j == spec_find_key(pairs_view(pairs@), k@),
        r is None ==> spec_find_key(pairs_view(pairs@), k@) < 0,
{
    let n = pairs.len();
    let mut i: usize = 0;
    while i < n
        invariant
            n == pairs@.len(),
            i <= n,
            forall|j: int| 0 <= j < i ==> pairs@[j].0@ != k@,
        decreases n - i,
    {
        if pairs[i].0.eq(k) {
            proof {
                assert(forall|j: int|
                    0 <= j < pairs@.len() ==> #[trigger] pairs_view(pairs@)[j] == (pairs@[j].0@,
                    pairs@[j].1@));
                lemma_find_key(pairs_view(pairs@), k@);
                assert(pairs_view(pairs@)[i as int].0 == k@);
                assert(spec_find_key(pairs_view(pairs@), k@) == i as int);
            }
            return Some(i);
        }
        i = i + 1;
    }
    proof {
        assert(forall|j: int|
            0 <= j < pairs@.len() ==> #[trigger] pairs_view(pairs@)[j] == (pairs@[j].0@,
            pairs@[j].1@));
        lemma_find_key(pairs_view(pairs@), k@);
        if spec_find_key(pairs_view(pairs@), k@) >= 0 {
            assert(pairs_view(pairs@)[spec_find_key(pairs_view(pairs@), k@)].0 == k@);
        }
    }
    None
}

/// The translation under `k`, if the map holds one.
pub fn lookup(pairs: &Vec<(String, String)>, k: &String) -> (r: Option<String>)
    ensures
        r matches Some(v) ==> spec_lookup(pairs_view(pairs@), k@) == Some(v@),
        r is None ==> spec_lookup(pairs_view(pairs@), k@) is None,
{
    proof {
        lemma_find_key(pairs_view(pairs@), k@);
        lemma_lookup_find(pairs_view(pairs@), k@);
    }
    match find_key(pairs, k) {
        Some(j) => Some(pairs[j].1.clone()),
        None => None,
    }
}

/// The title an entry submits for translation: the captured original if
/// a translation was ever applied, else the displayed title.
pub open spec fn canonical_title(e: Entry) -> Seq<char> {
    match e.title_original {
        Some(t) => t@,
        None => e.title@,
    }
}

/// Collects the canonical titles of the visible entries, in order.
///
/// An already-translated entry contributes its captured original, never
/// the displayed translation.
pub fn collect_titles(entries: &Vec<Entry>) -> (r: Vec<String>)
    ensures
        r@.len() == entries@.len(),
        forall|i: int| 0 <= i < entries@.len() ==> r@[i]@ == canonical_title(entries@[i]),
{
    let mut out: Vec<String> = Vec::new();
    let mut i: usize = 0;
    while i < entries.len()
        invariant
            i <= entries@.len(),
            out@.len() == i,
            forall|j: int| 0 <= j < i ==> out@[j]@ == canonical_title(entries@[j]),
        decreases entries@.len() - i,
    {
        let t = match &entries[i].title_original {
            Some(o) => o.clone(),
            None => entries[i].title.clone(),
        };
        out.push(t);
        i = i + 1;
    }
    out
}

/// Titles not yet cached, in submission order.
pub open spec fn spec_uncached(ts: Seq<Seq<char>>, m: Seq<(Seq<char>, Seq<char>)>) -> Seq<
    Seq<char>,
>
    decreases ts.len(),
{
    if ts.len() == 0 {
        Seq::empty()
    } else {
        let rest = spec_uncached(ts.drop_first(), m);
        if spec_find_key(m, ts[0]) >= 0 {
            rest
        } else {
            seq![ts[0]] + rest
        }
    }
}

/// Cached titles with their stored translations, in title order.
pub open spec fn spec_cached(ts: Seq<Seq<char>>, m: Seq<(Seq<char>, Seq<char>)>) -> Seq<(
    Seq<char>,
    Seq<char>,
)>
    decreases ts.len(),
{
    if ts.len() == 0 {
        Seq::empty()
    } else {
        let rest = spec_cached(ts.drop_first(), m);
        if spec_find_key(m, ts[0]) >= 0 {
            seq![(ts[0], spec_lookup(m, ts[0]).unwrap())] + rest
        } else {
            rest
        }
    }
}

/// What one translation run will do: serve these pairs from the cache,
/// submit these titles to the backend.  An empty `uncached` means the
/// run needs no network at all.
pub struct TranslationPlan {
    pub cached: Vec<(String, String)>,
    pub uncached: Vec<String>,
}

/// Splits the canonical titles into already-cached pairs and titles
/// that must go to the backend, both in title order.
pub fn plan_translation(titles: &Vec<String>, cache: &TranslationCache) -> (r: TranslationPlan)
    ensures
        pairs_view(r.cached@) == spec_cached(titles@.map_values(|t: String| t@), cache.map()),
        r.uncached@.map_values(|t: String| t@) == spec_uncached(
            titles@.map_values(|t: String| t@),
            cache.map(),
        ),
{
    let ghost tv = titles@.map_values(|t: String| t@);
    let mut cached: Vec<(String, String)> = Vec::new();
    let mut uncached: Vec<String> = Vec::new();
    let mut i: usize = 0;
    proof {
        assert(tv.skip(0) =~= tv);
    }
    while i < titles.len()
        invariant
            i <= titles@.len(),
            tv == titles@.map_values(|t: String| t@),
            spec_cached(tv, cache.map()) == pairs_view(cached@) + spec_cached(
                tv.skip(i as int),
                cache.map(),
            ),
            spec_uncached(tv, cache.map()) == uncached@.map_values(|t: String| t@)
                + spec_uncached(tv.skip(i as int), cache.map()),
        decreases titles@.len() - i,
    {
        let t = titles[i].clone();
        proof {
            assert(tv.skip(i as int)[0] == tv[i as int]);
            assert(tv.skip(i as int).drop_first() =~= tv.skip(i as int + 1));
            lemma_lookup_find(cache.map(), tv[i as int]);
        }
        match lookup(&cache.pairs, &t) {
            Some(tr) => {
                cached.push((t, tr));
                proof {
                    assert(pairs_view(cached@) =~= pairs_view(cached@.drop_last()).push(
                        (cached@.last().0@, cached@.last().1@),
                    ));
                    let a = pairs_view(cached@.drop_last());
                    let b = seq![(tv[i as int], spec_lookup(cache.map(), tv[i as int]).unwrap())];
                    assert(a.push(b[0]) =~= a + b);
                    assert((a + b) + spec_cached(tv.skip(i as int + 1), cache.map()) =~= a + (b
                        + spec_cached(tv.skip(i as int + 1), cache.map())));
                }
            },
            None => {
                uncached.push(t);
                proof {
                    assert(uncached@.map_values(|t: String| t@) =~= uncached@.drop_last(
                    ).map_values(|t: String| t@).push(uncached@.last()@));
                    let a = uncached@.drop_last().map_values(|t: String| t@);
                    let b = seq![tv[i as int]];
                    assert(a.push(b[0]) =~= a + b);
                    assert((a + b) + spec_uncached(tv.skip(i as int + 1), cache.map()) =~= a + (b
                        + spec_uncached(tv.skip(i as int + 1), cache.map())));
                }
            },
        }
        i = i + 1;
    }
    proof {
        assert(tv.skip(tv.len() as int) =~= Seq::<Seq<char>>::empty());
        assert(pairs_view(cached@) + Seq::<(Seq<char>, Seq<char>)>::empty() =~= pairs_view(
            cached@,
        ));
        assert(uncached@.map_values(|t: String| t@) + Seq::<Seq<char>>::empty() =~= uncached@
            .map_values(|t: String| t@));
    }
    TranslationPlan { cached, uncached }
}

/// One upsert: a present key's pair is replaced in place, a new key is
/// appended.
pub open spec fn spec_upsert(
    m: Seq<(Seq<char>, Seq<char>)>,
    p: (Seq<char>, Seq<char>),
) -> Seq<(Seq<char>, Seq<char>)> {
    let i = spec_find_key(m, p.0);
    if i >= 0 {
        m.update(i, p)
    } else {
        m.push(p)
    }
}

/// All of the backend's pairs upserted, in reply order.
pub open spec fn spec_upsert_all(
    m: Seq<(Seq<char>, Seq<char>)>,
    ps: Seq<(Seq<char>, Seq<char>)>,
) -> Seq<(Seq<char>, Seq<char>)>
    decreases ps.len(),
{
    if ps.len() == 0 {
        m
    } else {
        spec_upsert_all(spec_upsert(m, ps[0]), ps.drop_first())
    }
}

proof fn lemma_upsert_distinct(m: Seq<(Seq<char>, Seq<char>)>, p: (Seq<char>, Seq<char>))
    requires
        distinct_keys(m),
    ensures
        distinct_keys(spec_upsert(m, p)),
{
    lemma_find_key(m, p.0);
}

proof fn lemma_upsert_all_distinct(
    m: Seq<(Seq<char>, Seq<char>)>,
    ps: Seq<(Seq<char>, Seq<char>)>,
)
    requires
        distinct_keys(m),
    ensures
        distinct_keys(spec_upsert_all(m, ps)),
    decreases ps.len(),
{
    if ps.len() == 0 {
    } else {
        lemma_upsert_distinct(m, ps[0]);
        lemma_upsert_all_distinct(spec_upsert(m, ps[0]), ps.drop_first());
    }
}

/// Merges the backend's reply into the cache.  Keys never repeat
/// afterwards: a known title's translation is replaced, a new title is
/// appended, and nothing else changes.
pub fn apply_response(cache: &mut TranslationCache, pairs: &Vec<(String, String)>)
    requires
        old(cache).wf(),
    ensures
        final(cache).wf(),
        final(cache).map() == spec_upsert_all(old(cache).map(), pairs_view(pairs@)),
{
    let ghost pv = pairs_view(pairs@);
    let mut i: usize = 0;
    proof {
        assert(pv.skip(0) =~= pv);
    }
    while i < pairs.len()
        invariant
            i <= pairs@.len(),
            pv == pairs_view(pairs@),
            cache.wf(),
            spec_upsert_all(old(cache).map(), pv) == spec_upsert_all(
                cache.map(),
                pv.skip(i as int),
            ),
        decreases pairs@.len() - i,
    {
        let k = pairs[i].0.clone();
        let v = pairs[i].1.clone();
        proof {
            assert(pv.skip(i as int)[0] == pv[i as int]);
            assert(pv.skip(i as int).drop_first() =~= pv.skip(i as int + 1));
            lemma_find_key(cache.map(), k@);
            lemma_upsert_distinct(cache.map(), pv[i as int]);
        }
        let ghost pre = cache.map();
        match find_key(&cache.pairs, &k) {
            Some(j) => {
                cache.pairs[j] = (k, v);
                proof {
                    assert(cache.map() =~= pre.update(
                        spec_find_key(pre, pv[i as int].0),
                        pv[i as int],
                    ));
                }
            },
            None => {
                cache.pairs.push((k, v));
                proof {
                    assert(cache.map() =~= pre.push(pv[i as int]));
                }
            },
        }
        proof {
            assert(cache.map() == spec_upsert(pre, pv[i as int]));
        }
        i = i + 1;
    }
    proof {
        assert(pv.skip(pairs@.len() as int) =~= Seq::<(Seq<char>, Seq<char>)>::empty());
    }
}

/// How one entry changes when the drained translations reach it: if its
/// canonical title has a translation, the current title is captured into
/// `title_original` on first translation and the displayed title becomes
/// the translation; everything else stays.
pub open spec fn applied(e: Entry, f: Entry, m: Seq<(Seq<char>, Seq<char>)>) -> bool {
    &&& f.id == e.id
    &&& f.source_name == e.source_name
    &&& f.pub_date == e.pub_date
    &&& f.timestamp == e.timestamp
    &&& f.url == e.url
    &&& match spec_lookup(m, canonical_title(e)) {
        Option::None => f.title == e.title && f.title_original == e.title_original,
        Option::Some(tr) => {
            &&& f.title@ == tr
            &&& match e.title_original {
                Some(o) => f.title_original == e.title_original,
                None => f.title_original matches Some(c) && c@ == e.title@,
            }
        },
    }
}

/// Applying translations never changes what an entry will submit next
/// time: the canonical title is stable, so re-triggering translation
/// resubmits the original text, not the displayed translation.
pub proof fn lemma_canonical_stable(e: Entry, f: Entry, m: Seq<(Seq<char>, Seq<char>)>)
    requires
        applied(e, f, m),
    ensures
        canonical_title(f) == canonical_title(e),
{
}

/// Mutates the live entries of one category with the drained
/// translations, per `applied`.
pub fn apply_translations(entries: &mut Vec<Entry>, translations: &Vec<(String, String)>)
    ensures
        final(entries)@.len() == old(entries)@.len(),
        forall|i: int|
            0 <= i < old(entries)@.len() ==> applied(
                old(entries)@[i],
                final(entries)@[i],
                pairs_view(translations@),
            ),
{
    let n = entries.len();
    let mut i: usize = 0;
    while i < n
        invariant
            n == old(entries)@.len(),
            i <= n,
            entries@.len() == n,
            forall|j: int|
                0 <= j < i ==> applied(
                    old(entries)@[j],
                    entries@[j],
                    pairs_view(translations@),
                ),
            forall|j: int| i <= j < n ==> entries@[j] == old(entries)@[j],
        decreases n - i,
    {
        let original = match &entries[i].title_original {
            Some(o) => o.clone(),
            None => entries[i].title.clone(),
        };
        match lookup(translations, &original) {
            Some(tr) => {
                if entries[i].title_original.is_none() {
                    let captured = entries[i].title.clone();
                    entries[i].title_original = Some(captured);
                }
                entries[i].title = tr;
            },
            None => {
            },
        }
        i = i + 1;
    }
}

/// The fresh pairs from the backend joined with the already-cached
/// pairs; the fresh ones come first and win a lookup on any overlap.
pub fn combine_results(fresh: &Vec<(String, String)>, cached: &Vec<(String, String)>) -> (r: Vec<
    (String, String),
>)
    ensures
        r@ == fresh@ + cached@,
{
    let mut out: Vec<(String, String)> = Vec::new();
    let mut i: usize = 0;
    while i < fresh.len()
        invariant
            i <= fresh@.len(),
            out@ == fresh@.take(i as int),
        decreases fresh@.len() - i,
    {
        out.push((fresh[i].0.clone(), fresh[i].1.clone()));
        proof {
            assert(fresh@.take(i as int + 1) =~= fresh@.take(i as int).push(fresh@[i as int]));
        }
        i = i + 1;
    }
    proof {
        assert(fresh@.take(fresh@.len() as int) =~= fresh@);
    }
    let mut j: usize = 0;
    while j < cached.len()
        invariant
            j <= cached@.len(),
            out@ == fresh@ + cached@.take(j as int),
        decreases cached@.len() - j,
    {
        out.push((cached[j].0.clone(), cached[j].1.clone()));
        proof {
            assert(cached@.take(j as int + 1) =~= cached@.take(j as int).push(cached@[j as int]));
            assert(fresh@ + cached@.take(j as int + 1) =~= (fresh@ + cached@.take(
                j as int,
            )).push(cached@[j as int]));
        }
        j = j + 1;
    }
    proof {
        assert(cached@.take(cached@.len() as int) =~= cached@);
    }
    out
}

/// The blanks that response trimming removes.
pub open spec fn is_blank(c: char) -> bool {
    c == ' ' || c == '\t' || c == '\n' || c == '\r'
}

/// `s` without leading blanks.
pub open spec fn trim_front(s: Seq<char>) -> Seq<char>
    decreases s.len(),
{
    if s.len() > 0 && is_blank(s[0]) {
        trim_front(s.drop_first())
    } else {
        s
    }
}

/// `s` without trailing blanks.
pub open spec fn trim_back(s: Seq<char>) -> Seq<char>
    decreases s.len(),
{
    if s.len() > 0 && is_blank(s.last()) {
        trim_back(s.drop_last())
    } else {
        s
    }
}

/// `s` without leading and trailing blanks.
pub open spec fn spec_trim(s: Seq<char>) -> Seq<char> {
    trim_back(trim_front(s))
}

/// `s` with every leading copy of `p` removed.
pub open spec fn strip_prefix_all(s: Seq<char>, p: Seq<char>) -> Seq<char>
    decreases s.len(),
{
    if p.len() > 0 && s.len() >= p.len() && s.take(p.len() as int) == p {
        strip_prefix_all(s.skip(p.len() as int), p)
    } else {
        s
    }
}

/// `s` with every trailing copy of `p` removed.
pub open spec fn strip_suffix_all(s: Seq<char>, p: Seq<char>) -> Seq<char>
    decreases s.len(),
{
    if p.len() > 0 && s.len() >= p.len() && s.skip(s.len() - p.len()) == p {
        strip_suffix_all(s.take(s.len() - p.len()), p)
    } else {
        s
    }
}

/// The code-fence opener of a JSON block.
pub open spec fn fence_json() -> Seq<char> {
    seq!['`', '`', '`', 'j', 's', 'o', 'n']
}

/// A bare code fence.
pub open spec fn fence_ticks() -> Seq<char> {
    seq!['`', '`', '`']
}

/// What cleaning a backend reply returns: trimmed, with code-fence
/// markers stripped from both ends, and trimmed again.
pub open spec fn spec_clean_response(s: Seq<char>) -> Seq<char> {
    spec_trim(
        strip_suffix_all(
            strip_prefix_all(strip_prefix_all(spec_trim(s), fence_json()), fence_ticks()),
            fence_ticks(),
        ),
    )
}

fn blank(c: char) -> (r: bool)
    ensures
        r == is_blank(c),
{
    c == ' ' || c == '\t' || c == '\n' || c == '\r'
}

/// Removes leading and trailing blanks.
fn trim_chars(v: &Vec<char>) -> (r: Vec<char>)
    ensures
        r@ == spec_trim(v@),
{
    let n = v.len();
    let mut s: usize = 0;
    proof {
        assert(v@.skip(0) =~= v@);
    }
    while s < n && blank(v[s])
        invariant
            s <= n,
            n == v@.len(),
            trim_front(v@) == trim_front(v@.skip(s as int)),
        decreases n - s,
    {
        proof {
            assert(v@.skip(s as int)[0] == v@[s as int]);
            assert(v@.skip(s as int).drop_first() =~= v@.skip(s as int + 1));
        }
        s = s + 1;
    }
    proof {
        assert(trim_front(v@) == v@.skip(s as int));
    }
    let ghost w = v@.skip(s as int);
    let mut e: usize = n - s;
    proof {
        assert(w.take(e as int) =~= w);
    }
    while e > 0 && blank(v[s + e - 1])
        invariant
            e <= n - s,
            s <= n,
            n == v@.len(),
            w == v@.skip(s as int),
            trim_back(w) == trim_back(w.take(e as int)),
        decreases e,
    {
        proof {
            assert(w.take(e as int).last() == v@[s + e - 1]);
            assert(w.take(e as int).drop_last() =~= w.take(e as int - 1));
        }
        e = e - 1;
    }
    let mut out: Vec<char> = Vec::new();
    let mut i: usize = 0;
    while i < e
        invariant
            i <= e,
            e <= n - s,
            s <= n,
            n == v@.len(),
            w == v@.skip(s as int),
            out@ == w.take(e as int).take(i as int),
        decreases e - i,
    {
        out.push(v[s + i]);
        proof {
            assert(w.take(e as int).take(i as int + 1) =~= w.take(e as int).take(
                i as int,
            ).push(v@[s + i]));
        }
        i = i + 1;
    }
    proof {
        assert(w.take(e as int).take(e as int) =~= w.take(e as int));
        assert(out@ == trim_back(trim_front(v@)));
    }
    out
}

/// Removes every leading copy of `p`.
pub fn strip_prefix_all_chars(v: &Vec<char>, p: &Vec<char>) -> (r: Vec<char>)
    requires
        p@.len() > 0,
    ensures
        r@ == strip_prefix_all(v@, p@),
{
    let n = v.len();
    let m = p.len();
    let mut s: usize = 0;
    proof {
        assert(v@.skip(0) =~= v@);
    }
    while n - s >= m && has_prefix_at(v, s, p)
        invariant
            s <= n,
            n == v@.len(),
            m == p@.len(),
            m > 0,
            strip_prefix_all(v@, p@) == strip_prefix_all(v@.skip(s as int), p@),
        decreases n - s,
    {
        proof {
            assert(v@.skip(s as int).skip(m as int) =~= v@.skip(s as int + m as int));
        }
        s = s + m;
    }
    proof {
        assert(strip_prefix_all(v@.skip(s as int), p@) == v@.skip(s as int));
    }
    let mut out: Vec<char> = Vec::new();
    let mut i: usize = s;
    while i < n
        invariant
            s <= i <= n,
            n == v@.len(),
            out@ == v@.skip(s as int).take(i - s),
        decreases n - i,
    {
        out.push(v[i]);
        proof {
            assert(v@.skip(s as int).take(i - s + 1) =~= v@.skip(s as int).take(i - s).push(
                v@[i as int],
            ));
        }
        i = i + 1;
    }
    proof {
        assert(v@.skip(s as int).take(n - s) =~= v@.skip(s as int));
    }
    out
}

/// Removes every trailing copy of `p`.
fn strip_suffix_all_chars(v: &Vec<char>, p: &Vec<char>) -> (r: Vec<char>)
    requires
        p@.len() > 0,
    ensures
        r@ == strip_suffix_all(v@, p@),
{
    let n = v.len();
    let m = p.len();
    let mut e: usize = n;
    proof {
        assert(v@.take(n as int) =~= v@);
    }
    while e >= m && has_suffix_at(v, e, p)
        invariant
            e <= n,
            n == v@.len(),
            m == p@.len(),
            m > 0,
            strip_suffix_all(v@, p@) == strip_suffix_all(v@.take(e as int), p@),
        decreases e,
    {
        proof {
            assert(v@.take(e as int).take(e - m) =~= v@.take(e as int - m as int));
        }
        e = e - m;
    }
    proof {
        assert(strip_suffix_all(v@.take(e as int), p@) == v@.take(e as int));
    }
    let mut out: Vec<char> = Vec::new();
    let mut i: usize = 0;
    while i < e
        invariant
            i <= e,
            e <= n,
            n == v@.len(),
            out@ == v@.take(e as int).take(i as int),
        decreases e - i,
    {
        out.push(v[i]);
        proof {
            assert(v@.take(e as int).take(i as int + 1) =~= v@.take(e as int).take(
                i as int,
            ).push(v@[i as int]));
        }
        i = i + 1;
    }
    proof {
        assert(v@.take(e as int).take(e as int) =~= v@.take(e as int));
    }
    out
}

/// Whether `p` ends exactly at offset `e` of `v`.
fn has_suffix_at(v: &Vec<char>, e: usize, p: &Vec<char>) -> (r: bool)
    requires
        e <= v@.len(),
        p@.len() <= e,
    ensures
        r == (v@.take(e as int).skip(e - p@.len()) == p@),
{
    let m = p.len();
    let mut j: usize = 0;
    while j < m
        invariant
            j <= m,
            m == p@.len(),
            m <= e <= v@.len(),
            forall|t: int| 0 <= t < j ==> v@[e - m + t] == p@[t],
        decreases m - j,
    {
        if v[e - m + j] != p[j] {
            proof {
                assert(v@.take(e as int).skip(e - m)[j as int] == v@[e - m + j]);
            }
            return false;
        }
        j = j + 1;
    }
    proof {
        assert(v@.take(e as int).skip(e - m) =~= p@);
    }
    true
}

/// Cleans a backend reply: trims it and strips code-fence markers that
/// some replies arrive wrapped in.
pub fn clean_response(s: &str) -> (r: String)
    ensures
        r@ == spec_clean_response(s@),
{
    let chars = str_chars(s);
    let mut fj: Vec<char> = Vec::new();
    fj.push('`');
    fj.push('`');
    fj.push('`');
    fj.push('j');
    fj.push('s');
    fj.push('o');
    fj.push('n');
    let mut ft: Vec<char> = Vec::new();
    ft.push('`');
    ft.push('`');
    ft.push('`');
    proof {
        assert(fj@ =~= fence_json());
        assert(ft@ =~= fence_ticks());
    }
    let t1 = trim_chars(&chars);
    let t2 = strip_prefix_all_chars(&t1, &fj);
    let t3 = strip_prefix_all_chars(&t2, &ft);
    let t4 = strip_suffix_all_chars(&t3, &ft);
    let t5 = trim_chars(&t4);
    chars_to_string(&t5)
}

/// The hex digit for a value below 16.
pub open spec fn hex_digit(n: int) -> char {
    seq!['0', '1', '2', '3', '4', '5', '6', '7', '8', '9', 'a', 'b', 'c', 'd', 'e', 'f'][n]
}

/// The JSON escape of one character inside a string literal.
pub open spec fn esc_char(c: char) -> Seq<char> {
    if c == '"' {
        seq!['\\', '"']
    } else if c == '\\' {
        seq!['\\', '\\']
    } else if c == '\n' {
        seq!['\\', 'n']
    } else if c == '\r' {
        seq!['\\', 'r']
    } else if c == '\t' {
        seq!['\\', 't']
    } else if (c as u32) < 32 {
        seq!['\\', 'u', '0', '0', hex_digit(c as u32 as int / 16), hex_digit(c as u32 as int % 16)]
    } else {
        seq![c]
    }
}

/// A string's characters JSON-escaped.
pub open spec fn spec_escape(s: Seq<char>) -> Seq<char>
    decreases s.len(),
{
    if s.len() == 0 {
        Seq::empty()
    } else {
        esc_char(s[0]) + spec_escape(s.drop_first())
    }
}

/// A JSON string literal for `t`.
pub open spec fn quoted(t: Seq<char>) -> Seq<char> {
    seq!['"'] + spec_escape(t) + seq!['"']
}

/// The members of a JSON array of the titles, comma separated.
pub open spec fn spec_items(ts: Seq<Seq<char>>) -> Seq<char>
    decreases ts.len(),
{
    if ts.len() == 0 {
        Seq::empty()
    } else {
        quoted(ts[0]) + spec_items_rest(ts.drop_first())
    }
}

/// Further members, each preceded by a comma.
pub open spec fn spec_items_rest(ts: Seq<Seq<char>>) -> Seq<char>
    decreases ts.len(),
{
    if ts.len() == 0 {
        Seq::empty()
    } else {
        seq![','] + quoted(ts[0]) + spec_items_rest(ts.drop_first())
    }
}

/// The JSON object `{"titles":[...]}` that the batch request encloses.
pub open spec fn spec_titles_json(ts: Seq<Seq<char>>) -> Seq<char> {
    seq!['{', '"', 't', 'i', 't', 'l', 'e', 's', '"', ':', '['] + spec_items(ts) + seq![']', '}']
}

/// What the batch translation request says: the fixed instruction
/// followed by the titles object.
pub open spec fn spec_translation_prompt(ts: Seq<Seq<char>>) -> Seq<char> {
    TRANSLATION_INSTRUCTION@ + spec_titles_json(ts)
}

/// The fixed instruction text of a batch translation request.
pub const TRANSLATION_INSTRUCTION: &'static str = "Translate the 'titles' in the following JSON to Korean and return the result as a JSON object where each original title from the input is a key and its Korean translation is the value. For example, for input {\"titles\": [\"Hello\", \"World\"]}, the output should be {\"Hello\": \"안녕하세요\", \"World\": \"세상\"}. Respond with ONLY the JSON object.\n\nInput:\n";

/// Appends the characters of `s`.
fn push_chars(dst: &mut Vec<char>, s: &str)
    ensures
        final(dst)@ == old(dst)@ + s@,
{
    let cs = str_chars(s);
    let mut i: usize = 0;
    while i < cs.len()
        invariant
            i <= cs@.len(),
            cs@ == s@,
            dst@ == old(dst)@ + cs@.take(i as int),
        decreases cs@.len() - i,
    {
        dst.push(cs[i]);
        proof {
            assert(old(dst)@ + cs@.take(i as int + 1) =~= (old(dst)@ + cs@.take(i as int)).push(
                cs@[i as int],
            ));
        }
        i = i + 1;
    }
    proof {
        assert(cs@.take(cs@.len() as int) =~= cs@);
    }
}

/// Appends the JSON escape of one character.
fn push_escaped(dst: &mut Vec<char>, c: char)
    ensures
        final(dst)@ == old(dst)@ + esc_char(c),
{
    if c == '"' {
        dst.push('\\');
        dst.push('"');
        proof {
            assert(dst@ =~= old(dst)@ + esc_char(c));
        }
    } else if c == '\\' {
        dst.push('\\');
        dst.push('\\');
        proof {
            assert(dst@ =~= old(dst)@ + esc_char(c));
        }
    } else if c == '\n' {
        dst.push('\\');
        dst.push('n');
        proof {
            assert(dst@ =~= old(dst)@ + esc_char(c));
        }
    } else if c == '\r' {
        dst.push('\\');
        dst.push('r');
        proof {
            assert(dst@ =~= old(dst)@ + esc_char(c));
        }
    } else if c == '\t' {
        dst.push('\\');
        dst.push('t');
        proof {
            assert(dst@ =~= old(dst)@ + esc_char(c));
        }
    } else if (c as u32) < 32 {
        let digits: [char; 16] = ['0', '1', '2', '3', '4', '5', '6', '7', '8', '9', 'a', 'b', 'c',
            'd', 'e', 'f'];
        dst.push('\\');
        dst.push('u');
        dst.push('0');
        dst.push('0');
        let hi = (c as u32 / 16) as usize;
        let lo = (c as u32 % 16) as usize;
        dst.push(digits[hi]);
        dst.push(digits[lo]);
        proof {
            assert(digits@[hi as int] == hex_digit(c as u32 as int / 16));
            assert(digits@[lo as int] == hex_digit(c as u32 as int % 16));
            assert(dst@ =~= old(dst)@ + esc_char(c));
        }
    } else {
        dst.push(c);
        proof {
            assert(dst@ =~= old(dst)@ + esc_char(c));
        }
    }
}

/// Appends the JSON string literal for `t`.
fn push_quoted(dst: &mut Vec<char>, t: &String)
    ensures
        final(dst)@ == old(dst)@ + quoted(t@),
{
    dst.push('"');
    let cs = str_chars(t.as_str());
    let mut i: usize = 0;
    while i < cs.len()
        invariant
            i <= cs@.len(),
            cs@ == t@,
            dst@ == old(dst)@ + seq!['"'] + spec_escape(cs@.take(i as int)),
        decreases cs@.len() - i,
    {
        proof {
            lemma_escape_snoc(cs@.take(i as int), cs@[i as int]);
            assert(cs@.take(i as int + 1) =~= cs@.take(i as int).push(cs@[i as int]));
        }
        push_escaped(dst, cs[i]);
        proof {
            assert(old(dst)@ + seq!['"'] + spec_escape(cs@.take(i as int + 1)) =~= (old(dst)@
                + seq!['"'] + spec_escape(cs@.take(i as int))) + esc_char(cs@[i as int]));
        }
        i = i + 1;
    }
    dst.push('"');
    proof {
        assert(cs@.take(cs@.len() as int) =~= cs@);
        assert(old(dst)@ + quoted(t@) =~= (old(dst)@ + seq!['"'] + spec_escape(cs@)).push('"'));
    }
}

/// Escaping one more character appends its escape.
proof fn lemma_escape_snoc(s: Seq<char>, c: char)
    ensures
        spec_escape(s.push(c)) == spec_escape(s) + esc_char(c),
    decreases s.len(),
{
    if s.len() == 0 {
        assert(s.push(c)[0] == c);
        assert(s.push(c).drop_first() =~= Seq::<char>::empty());
        assert(spec_escape(Seq::<char>::empty()) =~= Seq::<char>::empty());
        assert(esc_char(c) + Seq::<char>::empty() =~= esc_char(c));
        assert(spec_escape(s.push(c)) =~= esc_char(c));
        assert(spec_escape(s) + esc_char(c) =~= esc_char(c));
    } else {
        lemma_escape_snoc(s.drop_first(), c);
        assert(s.push(c)[0] == s[0]);
        assert(s.push(c).drop_first() =~= s.drop_first().push(c));
        assert(esc_char(s[0]) + (spec_escape(s.drop_first()) + esc_char(c)) =~= (esc_char(s[0])
            + spec_escape(s.drop_first())) + esc_char(c));
    }
}

/// Builds the batch translation request for the uncached titles: the
/// fixed instruction followed by a JSON object enumerating them.
pub fn translation_prompt(titles: &Vec<String>) -> (r: String)
    ensures
        r@ == spec_translation_prompt(titles@.map_values(|t: String| t@)),
{
    let ghost tv = titles@.map_values(|t: String| t@);
    let mut v: Vec<char> = Vec::new();
    push_chars(&mut v, TRANSLATION_INSTRUCTION);
    push_chars(&mut v, "{\"titles\":[");
    let ghost open_part = v@;
    proof {
        reveal_strlit("{\"titles\":[");
        assert(open_part =~= TRANSLATION_INSTRUCTION@ + seq!['{', '"', 't', 'i', 't', 'l',
            'e', 's', '"', ':', '[']);
    }
    let mut i: usize = 0;
    while i < titles.len()
        invariant
            i <= titles@.len(),
            tv == titles@.map_values(|t: String| t@),
            i == 0 ==> v@ == open_part,
            i > 0 ==> v@ == open_part + quoted(tv[0]) + items_between(tv, 1, i as int),
        decreases titles@.len() - i,
    {
        if i > 0 {
            v.push(',');
        }
        push_quoted(&mut v, &titles[i]);
        proof {
            assert(tv[i as int] == titles@[i as int]@);
            if i == 0 {
                assert(items_between(tv, 1, 1) =~= Seq::<char>::empty());
                assert(v@ =~= open_part + quoted(tv[0]) + items_between(tv, 1, 1));
            } else {
                lemma_items_snoc(tv, 1, i as int);
                assert(v@ =~= open_part + quoted(tv[0]) + items_between(tv, 1, i as int + 1));
            }
        }
        i = i + 1;
    }
    push_chars(&mut v, "]}");
    proof {
        reveal_strlit("]}");
        let n = titles@.len() as int;
        if n == 0 {
            assert(spec_items(tv) =~= Seq::<char>::empty());
        } else {
            lemma_items_between(tv, 1);
            assert(tv.skip(0).drop_first() =~= tv.drop_first());
            assert(spec_items(tv) == quoted(tv[0]) + spec_items_rest(tv.drop_first()));
            assert(spec_items_rest(tv.drop_first()) == items_between(tv, 1, n));
        }
        assert(v@ =~= spec_translation_prompt(tv));
    }
    chars_to_string(&v)
}

/// The comma-led items of titles `a` to `b` (exclusive).
pub open spec fn items_between(ts: Seq<Seq<char>>, a: int, b: int) -> Seq<char>
    decreases b - a,
{
    if a >= b || a < 0 || b > ts.len() {
        Seq::empty()
    } else {
        seq![','] + quoted(ts[a]) + items_between(ts, a + 1, b)
    }
}

/// One more item extends the run at its end.
proof fn lemma_items_snoc(ts: Seq<Seq<char>>, a: int, b: int)
    requires
        0 <= a <= b < ts.len(),
    ensures
        items_between(ts, a, b + 1) == items_between(ts, a, b) + seq![','] + quoted(ts[b]),
    decreases b - a,
{
    if a == b {
        assert(items_between(ts, a, b) =~= Seq::<char>::empty());
        assert(items_between(ts, a + 1, b + 1) =~= Seq::<char>::empty());
        assert(seq![','] + quoted(ts[a]) + Seq::<char>::empty() =~= seq![','] + quoted(ts[a]));
        assert(Seq::<char>::empty() + seq![','] + quoted(ts[b]) =~= seq![','] + quoted(ts[b]));
    } else {
        lemma_items_snoc(ts, a + 1, b);
        assert(seq![','] + quoted(ts[a]) + (items_between(ts, a + 1, b) + seq![','] + quoted(
            ts[b],
        )) =~= (seq![','] + quoted(ts[a]) + items_between(ts, a + 1, b)) + seq![','] + quoted(
            ts[b],
        ));
    }
}

/// The tail items of a non-empty title list are its comma-led items.
proof fn lemma_items_between(ts: Seq<Seq<char>>, a: int)
    requires
        1 <= a <= ts.len(),
    ensures
        spec_items_rest(ts.skip(a - 1).drop_first()) == items_between(ts, a, ts.len() as int),
    decreases ts.len() - a,
{
    let u = ts.skip(a - 1).drop_first();
    assert(u =~= ts.skip(a));
    if a == ts.len() {
        assert(u.len() == 0);
    } else {
        lemma_items_between(ts, a + 1);
        assert(ts.skip(a)[0] == ts[a]);
        assert(ts.skip(a).drop_first() =~= ts.skip(a + 1));
        assert(ts.skip(a + 1) =~= ts.skip(a + 1 - 1).drop_first());
        assert(seq![','] + quoted(ts[a]) + spec_items_rest(ts.skip(a + 1)) =~= seq![','] + (quoted(
            ts[a],
        ) + spec_items_rest(ts.skip(a + 1))));
    }
}

/// Builds the summarization request: the fixed instruction, the source
/// URL, and the page text.
pub fn summary_prompt(url: &str, text: &str) -> (r: String)
    ensures
        r@ == SUMMARY_INSTRUCTION@ + url@ + ":\n\n"@ + text@,
{
    let mut v: Vec<char> = Vec::new();
    push_chars(&mut v, SUMMARY_INSTRUCTION);
    push_chars(&mut v, url);
    push_chars(&mut v, ":\n\n");
    push_chars(&mut v, text);
    chars_to_string(&v)
}

/// The fixed instruction text of a summarization request.
pub const SUMMARY_INSTRUCTION: &'static str = "Please summarize the following text in Korean, extracted from the URL ";

/// The pairs of original title and translation that the backend's
/// cleaned reply carries.
pub uninterp spec fn spec_response_pairs(s: Seq<char>) -> Seq<(Seq<char>, Seq<char>)>;

/// Relies on serde_json: parsing the cleaned reply as JSON and walking
/// the object under a top-level "titles" member, or the top-level
/// object itself when there is none, yields its string-valued members
/// in key order (serde_json's maps iterate sorted by key).  The result
/// is a function of the text alone; unparsable text yields no pairs,
/// and so does empty text.
#[verifier::external_body]
fn response_pairs(s: &str) -> (r: Vec<(String, String)>)
    ensures
        pairs_view(r@) == spec_response_pairs(s@),
        s@.len() == 0 ==> r@.len() == 0,
{
    let v: serde_json::Value = match serde_json::from_str(s) {
        Ok(v) => v,
        Err(_) => return Vec::new(),
    };
    let dict = match v.get("titles") {
        Some(d) => d,
        None => &v,
    };
    let members = dict.as_object().into_iter().flatten();
    members.filter_map(|(k, val)| val.as_str().map(|t| (k.clone(), t.to_string()))).collect()
}

/// Ingests the backend's raw reply: cleans it of code fences, extracts
/// its title pairs, merges them into the cache, and returns the pairs
/// for this run with the fresh ones first.
pub fn ingest_response(
    cache: &mut TranslationCache,
    response_text: &str,
    cached_part: &Vec<(String, String)>,
) -> (r: Vec<(String, String)>)
    requires
        old(cache).wf(),
    ensures
        final(cache).wf(),
        final(cache).map() == spec_upsert_all(
            old(cache).map(),
            spec_response_pairs(spec_clean_response(response_text@)),
        ),
        pairs_view(r@) == spec_response_pairs(spec_clean_response(response_text@)) + pairs_view(
            cached_part@,
        ),
{
    let cleaned = clean_response(response_text);
    let fresh = response_pairs(cleaned.as_str());
    apply_response(cache, &fresh);
    let r = combine_results(&fresh, cached_part);
    proof {
        assert(pairs_view(r@) =~= pairs_view(fresh@) + pairs_view(cached_part@));
    }
    r
}

} // verus!
