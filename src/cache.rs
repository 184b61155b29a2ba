//! The process-wide cache of package searches: entries keyed by the full
//! search parameters, dropped once older than a time-to-live, and the
//! oldest evicted first beyond a maximum count.

use vstd::prelude::*;
use crate::text::{copy_str, decimal, decimal_text, same_text};

verus! {

/// Seconds a cached search stays valid.
pub const SEARCH_CACHE_TTL_SECS: u64 = 600;

/// Most searches kept.
pub const SEARCH_CACHE_MAX_ENTRIES: usize = 64;

/// One search result.
#[derive(Clone, Debug, PartialEq, Eq)]
pub struct ProjectHit {
    pub project_id: String,
    pub title: String,
    pub description: String,
    pub downloads: u64,
    pub author: String,
    pub slug: String,
    pub icon_url: Option<String>,
}

fn copy_hit(h: &ProjectHit) -> (r: ProjectHit)
    ensures
        r == *h,
{
    ProjectHit {
        project_id: h.project_id.clone(),
        title: h.title.clone(),
        description: h.description.clone(),
        downloads: h.downloads,
        author: h.author.clone(),
        slug: h.slug.clone(),
        icon_url: crate::config::copy_opt(&h.icon_url),
    }
}

/// A copy of search results.
pub fn copy_hits(v: &Vec<ProjectHit>) -> (r: Vec<ProjectHit>)
    ensures
        r@ == v@,
{
    let mut r: Vec<ProjectHit> = Vec::new();
    let mut i: usize = 0;
    while i < v.len()
        invariant
            i <= v.len(),
            r@ == v@.subrange(0, i as int),
        decreases v.len() - i,
    {
        r.push(copy_hit(&v[i]));
        assert(r@ =~= v@.subrange(0, i + 1));
        i = i + 1;
    }
    assert(v@.subrange(0, v.len() as int) =~= v@);
    r
}

/// A cached search: its key, when it was stored (seconds on the caller's
/// monotonic clock), and its results.
#[derive(Debug)]
pub struct CacheEntry {
    pub key: String,
    pub created_at: u64,
    pub hits: Vec<ProjectHit>,
}

/// Key, creation time and results of an entry.
pub open spec fn entry_view(e: CacheEntry) -> (Seq<char>, u64, Seq<ProjectHit>) {
    (e.key@, e.created_at, e.hits@)
}

pub open spec fn entries_view(v: Seq<CacheEntry>) -> Seq<(Seq<char>, u64, Seq<ProjectHit>)> {
    v.map_values(|e: CacheEntry| entry_view(e))
}

/// The entry is younger than the time-to-live at `now`.
pub open spec fn fresh(e: (Seq<char>, u64, Seq<ProjectHit>), now: u64) -> bool {
    (if now >= e.1 { now - e.1 } else { 0 }) < SEARCH_CACHE_TTL_SECS
}

/// `after` is `before` pruned at `now`: only fresh entries, at most the
/// maximum count, each taken from `before`; a fresh entry was evicted only if
/// it is no newer than every kept one; with few enough fresh entries, all of
/// them are kept in order.
pub open spec fn pruned(before: Seq<(Seq<char>, u64, Seq<ProjectHit>)>, after: Seq<(Seq<char>, u64, Seq<ProjectHit>)>, now: u64) -> bool {
    &&& forall|i: int| 0 <= i < after.len() ==> fresh(#[trigger] after[i], now)
    &&& after.len() <= SEARCH_CACHE_MAX_ENTRIES
    &&& forall|i: int| 0 <= i < after.len() ==> before.contains(#[trigger] after[i])
    &&& forall|j: int|
        0 <= j < before.len() && fresh(#[trigger] before[j], now) && !after.contains(before[j])
            ==> forall|i: int| 0 <= i < after.len() ==> before[j].1 <= (#[trigger] after[i]).1
    &&& before.filter(|e: (Seq<char>, u64, Seq<ProjectHit>)| fresh(e, now)).len() <= SEARCH_CACHE_MAX_ENTRIES
        ==> after == before.filter(|e: (Seq<char>, u64, Seq<ProjectHit>)| fresh(e, now))
    &&& before.filter(|e: (Seq<char>, u64, Seq<ProjectHit>)| fresh(e, now)).len() > SEARCH_CACHE_MAX_ENTRIES
        ==> after.len() == SEARCH_CACHE_MAX_ENTRIES
}

/// Entries after storing `hits` under `key` at `now`: an entry with that key is renewed
/// in place, else one is appended.
pub open spec fn stored(v: Seq<(Seq<char>, u64, Seq<ProjectHit>)>, key: Seq<char>, now: u64, hits: Seq<ProjectHit>) -> Seq<(Seq<char>, u64, Seq<ProjectHit>)> {
    if exists|i: int| 0 <= i < v.len() && (#[trigger] v[i]).0 == key {
        let i = choose|i: int| 0 <= i < v.len() && (#[trigger] v[i]).0 == key && forall|j: int| 0 <= j < i ==> (#[trigger] v[j]).0 != key;
        v.update(i, (key, now, hits))
    } else {
        v.push((key, now, hits))
    }
}

/// Cache of package searches.
pub struct SearchCache {
    entries: Vec<CacheEntry>,
}

impl SearchCache {
    /// Keys and creation times of the cached searches, in insertion order.
    pub closed spec fn view(&self) -> Seq<(Seq<char>, u64, Seq<ProjectHit>)> {
        entries_view(self.entries@)
    }

    pub fn new() -> (r: SearchCache)
        ensures
            r.view().len() == 0,
    {
        let r = SearchCache { entries: Vec::new() };
        assert(r.view() =~= Seq::<(Seq<char>, u64, Seq<ProjectHit>)>::empty());
        r
    }

    /// Drops stale searches, then evicts the oldest until at most the
    /// maximum count is left (see `pruned`).
    pub fn prune(&mut self, now: u64)
        ensures
            pruned(old(self).view(), final(self).view(), now),
    {
        let ghost ov = self.view();
        let ghost is_fresh = |e: (Seq<char>, u64, Seq<ProjectHit>)| fresh(e, now);
        let mut old_entries: Vec<CacheEntry> = Vec::new();
        std::mem::swap(&mut old_entries, &mut self.entries);
        assert(entries_view(old_entries@) == ov);
        let mut kept: Vec<CacheEntry> = Vec::new();
        let n = old_entries.len();
        let mut i: usize = 0;
        proof {
            reveal(Seq::filter);
            assert(ov.subrange(0, 0).filter(is_fresh) =~= entries_view(kept@));
        }
        while i < n
            invariant
                n == ov.len(),
                i <= n,
                old_entries@.len() == n - i,
                entries_view(old_entries@) == ov.subrange(i as int, n as int),
                entries_view(kept@) == ov.subrange(0, i as int).filter(is_fresh),
                is_fresh == (|e: (Seq<char>, u64, Seq<ProjectHit>)| fresh(e, now)),
            decreases n - i,
        {
            let ghost ob = old_entries@;
            let e = old_entries.remove(0);
            proof {
                reveal(Seq::filter);
                assert(entries_view(ob)[0] == entry_view(ob[0]));
                assert(ov.subrange(i as int, n as int)[0] == ov[i as int]);
                assert(entry_view(e) == ov[i as int]);
                assert(ov.subrange(0, i + 1).drop_last() =~= ov.subrange(0, i as int));
                assert(entries_view(old_entries@) =~= entries_view(ob).drop_first());
                assert(ov.subrange(i as int, n as int).drop_first() =~= ov.subrange(i + 1, n as int));
            }
            let age = if now >= e.created_at {
                now - e.created_at
            } else {
                0
            };
            if age < SEARCH_CACHE_TTL_SECS {
                let ghost before = entries_view(kept@);
                kept.push(e);
                assert(entries_view(kept@) =~= before.push(ov[i as int]));
            }
            i = i + 1;
        }
        assert(ov.subrange(0, n as int) =~= ov);
        let ghost filtered = entries_view(kept@);
        proof {
            assert forall|k: int| 0 <= k < filtered.len() implies fresh(#[trigger] filtered[k], now) && ov.contains(filtered[k]) by {
                ov.filter_lemma(is_fresh);
                ov.lemma_filter_contains_rev(is_fresh, filtered[k]);
            }
        }
        let ghost mut evicted: Seq<(Seq<char>, u64, Seq<ProjectHit>)> = Seq::empty();
        while kept.len() > SEARCH_CACHE_MAX_ENTRIES
            invariant
                forall|k: int| 0 <= k < entries_view(kept@).len() ==> fresh(#[trigger] entries_view(kept@)[k], now) && ov.contains(entries_view(kept@)[k]),
                forall|k: int| 0 <= k < filtered.len() ==> entries_view(kept@).contains(#[trigger] filtered[k]) || evicted.contains(filtered[k]),
                forall|a: int, b: int| 0 <= a < evicted.len() && 0 <= b < entries_view(kept@).len() ==> (#[trigger] evicted[a]).1 <= (#[trigger] entries_view(kept@)[b]).1,
                evicted.len() > 0 ==> filtered.len() > SEARCH_CACHE_MAX_ENTRIES,
                filtered.len() > SEARCH_CACHE_MAX_ENTRIES ==> kept@.len() >= SEARCH_CACHE_MAX_ENTRIES,
                filtered.len() == entries_view(kept@).len() + evicted.len(),
                evicted.len() == 0 ==> entries_view(kept@) == filtered,
                filtered == ov.filter(is_fresh),
                is_fresh == (|e: (Seq<char>, u64, Seq<ProjectHit>)| fresh(e, now)),
            decreases kept.len(),
        {
            let mut m: usize = 0;
            let mut j: usize = 1;
            while j < kept.len()
                invariant
                    m < kept.len(),
                    1 <= j <= kept.len(),
                    m < j,
                    forall|b: int| 0 <= b < j ==> kept@[m as int].created_at <= (#[trigger] kept@[b]).created_at,
                decreases kept.len() - j,
            {
                if kept[j].created_at < kept[m].created_at {
                    m = j;
                }
                j = j + 1;
            }
            let ghost kb = kept@;
            let ghost before = entries_view(kept@);
            let ghost gone = before[m as int];
            let ghost old_evicted = evicted;
            let _ = kept.remove(m);
            proof {
                assert(entries_view(kept@) =~= before.remove(m as int));
                assert forall|b: int| 0 <= b < before.len() implies gone.1 <= (#[trigger] before[b]).1 by {
                    assert(before[b] == entry_view(kb[b]));
                    assert(kb[m as int].created_at <= kb[b].created_at);
                }
                evicted = evicted.push(gone);
                let after = entries_view(kept@);
                assert forall|k: int| 0 <= k < after.len() implies fresh(#[trigger] after[k], now) && ov.contains(after[k]) by {
                    if k < m {
                        assert(after[k] == before[k]);
                    } else {
                        assert(after[k] == before[k + 1]);
                    }
                }
                assert forall|k: int| 0 <= k < filtered.len() implies after.contains(#[trigger] filtered[k]) || evicted.contains(filtered[k]) by {
                    if old_evicted.contains(filtered[k]) {
                        let q = choose|q: int| 0 <= q < old_evicted.len() && old_evicted[q] == filtered[k];
                        assert(evicted[q] == filtered[k]);
                    } else {
                        assert(before.contains(filtered[k]));
                        let q = choose|q: int| 0 <= q < before.len() && before[q] == filtered[k];
                        if q == m {
                            assert(evicted[old_evicted.len() as int] == filtered[k]);
                        } else if q < m {
                            assert(after[q] == filtered[k]);
                        } else {
                            assert(after[q - 1] == filtered[k]);
                        }
                    }
                }
                assert forall|x: int, y: int| 0 <= x < evicted.len() && 0 <= y < after.len() implies (#[trigger] evicted[x]).1 <= (#[trigger] after[y]).1 by {
                    let yb = if y < m { y } else { y + 1 };
                    assert(after[y] == before[yb]);
                    if x < old_evicted.len() {
                        assert(evicted[x] == old_evicted[x]);
                    }
                }
            }
        }
        proof {
            let fin = entries_view(kept@);
            assert forall|j: int|
                0 <= j < ov.len() && fresh(#[trigger] ov[j], now) && !fin.contains(ov[j]) implies forall|i: int|
                0 <= i < fin.len() ==> ov[j].1 <= (#[trigger] fin[i]).1 by {
                reveal(Seq::filter);
                ov.filter_lemma(is_fresh);
                assert(is_fresh(ov[j]));
                assert(filtered.contains(ov[j]));
                let k = choose|k: int| 0 <= k < filtered.len() && filtered[k] == ov[j];
                assert(evicted.contains(filtered[k]));
                let x = choose|x: int| 0 <= x < evicted.len() && evicted[x] == filtered[k];
                assert forall|i: int| 0 <= i < fin.len() implies ov[j].1 <= (#[trigger] fin[i]).1 by {
                    assert(evicted[x].1 <= fin[i].1);
                }
            }
        }
        self.entries = kept;
    }

    /// The results cached under `key`, after pruning at `now`.
    pub fn get(&mut self, key: &str, now: u64) -> (r: Option<Vec<ProjectHit>>)
        ensures
            pruned(old(self).view(), final(self).view(), now),
            r is Some <==> exists|i: int| 0 <= i < final(self).view().len() && (#[trigger] final(self).view()[i]).0 == key@,
            r matches Some(h) ==> exists|i: int|
                0 <= i < final(self).view().len() && (#[trigger] final(self).view()[i]).0 == key@ && final(self).view()[i].2 == h@
                    && forall|j: int| 0 <= j < i ==> (#[trigger] final(self).view()[j]).0 != key@,
    {
        self.prune(now);
        let mut i: usize = 0;
        while i < self.entries.len()
            invariant
                i <= self.entries.len(),
                pruned(old(self).view(), self.view(), now),
                forall|j: int| 0 <= j < i ==> (#[trigger] self.view()[j]).0 != key@,
            decreases self.entries.len() - i,
        {
            if same_text(self.entries[i].key.as_str(), key) {
                assert(self.view()[i as int].0 == key@);
                return Some(copy_hits(&self.entries[i].hits));
            }
            i = i + 1;
        }
        None
    }

    /// Stores the results of a search at `now` (see `stored`), then prunes.
    pub fn put(&mut self, key: String, hits: Vec<ProjectHit>, now: u64)
        ensures
            pruned(stored(old(self).view(), key@, now, hits@), final(self).view(), now),
    {
        let ghost v = self.view();
        let mut i: usize = 0;
        while i < self.entries.len()
            invariant
                i <= self.entries.len(),
                v == self.view(),
                v == old(self).view(),
                forall|j: int| 0 <= j < i ==> (#[trigger] v[j]).0 != key@,
            decreases self.entries.len() - i,
        {
            if same_text(self.entries[i].key.as_str(), key.as_str()) {
                let ghost kv = key@;
                let ghost hv = hits@;
                assert(v[i as int].0 == kv);
                assert(exists|c: int| 0 <= c < v.len() && (#[trigger] v[c]).0 == kv && forall|j: int| 0 <= j < c ==> (#[trigger] v[j]).0 != kv);
                self.entries.set(i, CacheEntry { key, created_at: now, hits });
                proof {
                    let c = choose|c: int| 0 <= c < v.len() && (#[trigger] v[c]).0 == kv && forall|j: int| 0 <= j < c ==> (#[trigger] v[j]).0 != kv;
                    if c < i {
                        assert(v[c].0 != kv);
                    } else if c > i {
                        assert(v[i as int].0 == kv);
                    }
                    assert(c == i);
                    assert(stored(v, kv, now, hv) == v.update(i as int, (kv, now, hv)));
                    assert(self.view() =~= v.update(i as int, (kv, now, hv)));
                }
                self.prune(now);
                return;
            }
            i = i + 1;
        }
        let ghost kv = key@;
        let ghost hv = hits@;
        self.entries.push(CacheEntry { key, created_at: now, hits });
        assert(self.view() =~= v.push((kv, now, hv)));
        self.prune(now);
    }
}

/// The cache key of a search: every parameter, with the extra facets as
/// JSON (`null` when there are none).
pub fn cache_key(
    query: &str,
    project_type: &str,
    game_version: &str,
    loader: Option<&str>,
    limit: u32,
    index: Option<&str>,
    extra_facets: &Option<Vec<Vec<String>>>,
) -> (r: String)
    ensures
        ({
            let head = "q="@ + query@ + "|type="@ + project_type@ + "|ver="@ + game_version@ + "|loader="@
                + crate::packages::opt_str(loader).unwrap_or(Seq::empty()) + "|limit="@ + decimal(limit as nat)
                + "|sort="@ + crate::packages::opt_str(index).unwrap_or(Seq::empty()) + "|facets="@;
            match extra_facets {
                Some(x) => r@ == head + crate::packages::json_of_lists(x.deep_view()),
                None => r@ == head + "null"@,
            }
        }),
{
    let mut k = copy_str("q=");
    k.append(query);
    k.append("|type=");
    k.append(project_type);
    k.append("|ver=");
    k.append(game_version);
    k.append("|loader=");
    match loader {
        Some(l) => k.append(l),
        None => {},
    }
    k.append("|limit=");
    let l = decimal_text(limit as u64);
    k.append(l.as_str());
    k.append("|sort=");
    match index {
        Some(i) => k.append(i),
        None => {},
    }
    k.append("|facets=");
    match extra_facets {
        Some(x) => match crate::packages::json_lists(x) {
            Some(t) => k.append(t.as_str()),
            None => return k,
        },
        None => k.append("null"),
    }
    k
}

} // verus!
