//! The canonical data model: one feed item normalized from RSS or Atom,
//! the per-category cache envelope, a category of sources, and the
//! loading-progress record.

use vstd::prelude::*;

verus! {

/// One feed item in canonical shape.  `id` equals the publish timestamp:
/// two items publishing in the same second collide and only one survives
/// a merge.  After creation only `title` and `title_original` are ever
/// replaced, by the translation pipeline.
pub struct Entry {
    /// Identity under merging; equals `timestamp`.
    pub id: i64,
    /// Source (or resolved author) shown in the source column.
    pub source_name: String,
    /// Display form of the publish date.
    pub pub_date: String,
    /// Publish time in epoch seconds; the sort key.
    pub timestamp: i64,
    pub url: String,
    pub title: String,
    /// The untranslated title, captured the first time a translation is
    /// applied; `None` while the title is still the original.
    pub title_original: Option<String>,
}

impl Entry {
    /// An exact copy.
    pub fn duplicate(&self) -> (r: Entry)
        ensures
            r == *self,
    {
        Entry {
            id: self.id,
            source_name: self.source_name.clone(),
            pub_date: self.pub_date.clone(),
            timestamp: self.timestamp,
            url: self.url.clone(),
            title: self.title.clone(),
            title_original: match &self.title_original {
                Some(t) => Some(t.clone()),
                None => None,
            },
        }
    }
}

/// Copies a whole entry list.
pub fn duplicate_entries(v: &Vec<Entry>) -> (r: Vec<Entry>)
    ensures
        r@ == v@,
{
    let mut out: Vec<Entry> = Vec::new();
    let mut i: usize = 0;
    while i < v.len()
        invariant
            i <= v@.len(),
            out@ == v@.take(i as int),
        decreases v@.len() - i,
    {
        out.push(v[i].duplicate());
        proof {
            assert(v@.take(i + 1) =~= v@.take(i as int).push(v@[i as int]));
        }
        i = i + 1;
    }
    proof {
        assert(v@.take(v@.len() as int) =~= v@);
    }
    out
}

/// What one category's cache file holds: the merged entry list and the
/// epoch second at which it was written.
pub struct CachedFeed {
    pub entries: Vec<Entry>,
    pub created_at: i64,
}

/// One selectable tab: a named group of feed sources.
pub struct Category {
    pub key: String,
    pub title: String,
    /// Source name and feed URL, in configuration order.
    pub feeds: Vec<(String, String)>,
    /// Show the item's author in place of the source name.
    pub show_author: bool,
}

/// Progress of the in-flight aggregation, written once per source and
/// read concurrently by the renderer.
pub struct LoadingState {
    pub is_loading: bool,
    pub current: usize,
    pub total: usize,
}

impl LoadingState {
    /// The idle state: nothing in flight.
    pub fn idle() -> (r: LoadingState)
        ensures
            !r.is_loading,
            r.current == 0,
            r.total == 0,
    {
        LoadingState { is_loading: false, current: 0, total: 0 }
    }

    /// Marks the start of an aggregation over `total` sources.
    pub fn start(&mut self, total: usize)
        ensures
            final(self).is_loading,
            final(self).current == 0,
            final(self).total == total,
    {
        self.is_loading = true;
        self.current = 0;
        self.total = total;
    }

    /// Records that source number `current` (1-based) is being fetched.
    pub fn progress(&mut self, current: usize)
        ensures
            final(self).is_loading == old(self).is_loading,
            final(self).current == current,
            final(self).total == old(self).total,
    {
        self.current = current;
    }

    /// Marks the aggregation finished.
    pub fn finish(&mut self)
        ensures
            !final(self).is_loading,
            final(self).current == old(self).current,
            final(self).total == old(self).total,
    {
        self.is_loading = false;
    }
}

} // verus!
