//! A keyed, bounded store with optional per-entry TTL and optional
//! capacity. Entries are created on insertion, evicted on TTL expiry
//! or capacity pressure. Time is an explicit millisecond argument so
//! every caller states when it acts.

use vstd::prelude::*;

verus! {

/// Knobs for the proxy's two caches, in milliseconds and entries.
pub struct CacheConfig {
    pub image_ttl: Option<u64>,
    pub image_capacity: Option<usize>,
    pub video_ttl: Option<u64>,
    pub video_capacity: Option<usize>,
}

impl Default for CacheConfig {
    /// No TTL and no capacity bound on either cache.
    fn default() -> (r: Self)
        ensures
            r.image_ttl is None,
            r.image_capacity is None,
            r.video_ttl is None,
            r.video_capacity is None,
    {
        CacheConfig { image_ttl: None, image_capacity: None, video_ttl: None, video_capacity: None }
    }
}

/// A bounded keyed store. Entries remember their insertion time;
/// lookups judge expiry against the caller's clock.
pub struct Cache<V> {
    entries: Vec<(u64, V, u64)>,
    ttl: Option<u64>,
    capacity: Option<usize>,
}

/// Whether an entry inserted at `at` is expired at `now` under `ttl`.
pub open spec fn expired_at(at: u64, now: u64, ttl: Option<u64>) -> bool {
    match ttl {
        Some(d) => now as int >= at as int + d as int,
        None => false,
    }
}

/// The first entry with the given key, as (value, inserted-at).
pub open spec fn lookup_seq<V>(s: Seq<(u64, V, u64)>, k: u64) -> Option<(V, u64)>
    decreases s.len(),
{
    if s.len() == 0 {
        None
    } else if s.first().0 == k {
        Some((s.first().1, s.first().2))
    } else {
        lookup_seq(s.drop_first(), k)
    }
}

/// Whether any entry has the given key.
pub open spec fn has_key<V>(s: Seq<(u64, V, u64)>, k: u64) -> bool {
    exists|i: int| 0 <= i < s.len() && (#[trigger] s[i]).0 == k
}

/// The predicate an insertion keeps entries by: another key, and not
/// expired.
pub open spec fn live_other<V>(k: u64, now: u64, ttl: Option<u64>) -> spec_fn(
    (u64, V, u64),
) -> bool {
    |e: (u64, V, u64)| e.0 != k && !expired_at(e.2, now, ttl)
}

/// The predicate a removal keeps entries by: another key.
pub open spec fn other_key<V>(k: u64) -> spec_fn((u64, V, u64)) -> bool {
    |e: (u64, V, u64)| e.0 != k
}

/// The entries an insertion at `now` keeps before pushing the new
/// one: the old key is dropped, and so is everything expired.
pub open spec fn insert_kept<V>(
    s: Seq<(u64, V, u64)>,
    k: u64,
    now: u64,
    ttl: Option<u64>,
) -> Seq<(u64, V, u64)> {
    s.filter(live_other(k, now, ttl))
}

/// The whole insertion transition: keep, trim to capacity, push.
pub open spec fn insert_seq<V>(
    s: Seq<(u64, V, u64)>,
    k: u64,
    v: V,
    now: u64,
    ttl: Option<u64>,
    capacity: Option<usize>,
) -> Seq<(u64, V, u64)> {
    let base = insert_kept(s, k, now, ttl);
    let room = match capacity {
        Some(c) => if base.len() >= c {
            base.drop_first()
        } else {
            base
        },
        None => base,
    };
    room.push((k, v, now))
}

impl<V> Cache<V> {
    /// The stored entries, oldest first.
    pub closed spec fn entries_view(self) -> Seq<(u64, V, u64)> {
        self.entries@
    }

    /// The configured TTL in milliseconds, if any.
    pub closed spec fn ttl_spec(self) -> Option<u64> {
        self.ttl
    }

    /// The configured capacity in entries, if any.
    pub closed spec fn capacity_spec(self) -> Option<usize> {
        self.capacity
    }

    /// Keys are unique and the capacity is respected.
    pub open spec fn wf(self) -> bool {
        &&& (forall|i: int, j: int|
            0 <= i < j < self.entries_view().len() ==> (#[trigger] self.entries_view()[i]).0 != (
            #[trigger] self.entries_view()[j]).0)
        &&& (match self.capacity_spec() {
            Some(c) => self.entries_view().len() <= c && c >= 1,
            None => true,
        })
    }

    /// An empty cache with neither TTL nor capacity.
    pub fn new() -> (r: Self)
        ensures
            r.wf(),
            r.entries_view() == Seq::<(u64, V, u64)>::empty(),
            r.ttl_spec() is None,
            r.capacity_spec() is None,
    {
        Cache { entries: Vec::new(), ttl: None, capacity: None }
    }

    /// The same cache with a TTL.
    pub fn with_ttl(self, ttl: u64) -> (r: Self)
        ensures
            r.entries_view() == self.entries_view(),
            r.ttl_spec() == Some(ttl),
            r.capacity_spec() == self.capacity_spec(),
    {
        Cache { entries: self.entries, ttl: Some(ttl), capacity: self.capacity }
    }

    /// The same cache with a capacity bound of at least one entry.
    pub fn with_capacity(self, capacity: usize) -> (r: Self)
        requires
            capacity >= 1,
            self.entries_view().len() <= capacity,
        ensures
            r.entries_view() == self.entries_view(),
            r.ttl_spec() == self.ttl_spec(),
            r.capacity_spec() == Some(capacity),
    {
        Cache { entries: self.entries, ttl: self.ttl, capacity: Some(capacity) }
    }

    /// Insert a value under a key at the given time. The key's old
    /// entry and every expired entry are dropped; if the capacity
    /// would be exceeded, the oldest remaining entry is evicted.
    pub fn insert(&mut self, k: u64, v: V, now: u64)
        requires
            old(self).wf(),
        ensures
            final(self).wf(),
            final(self).entries_view() == insert_seq(
                old(self).entries_view(),
                k,
                v,
                now,
                old(self).ttl_spec(),
                old(self).capacity_spec(),
            ),
            final(self).ttl_spec() == old(self).ttl_spec(),
            final(self).capacity_spec() == old(self).capacity_spec(),
            lookup_seq(final(self).entries_view(), k) == Some((v, now)),
    {
        let ghost orig = self.entries@;
        let ghost old_ttl = self.ttl;
        let ghost keep = live_other::<V>(k, now, old_ttl);
        let mut kept: Vec<(u64, V, u64)> = Vec::new();
        let ghost processed: int = 0;
        proof {
            assert(orig.skip(0) =~= orig);
        }
        while self.entries.len() != 0
            invariant
                orig == old(self).entries_view(),
                0 <= processed <= orig.len(),
                self.entries@ == orig.skip(processed),
                self.ttl == old_ttl,
                self.capacity == old(self).capacity,
                old(self).wf(),
                keep == live_other::<V>(k, now, old_ttl),
                kept@ == orig.take(processed).filter(keep),
            decreases orig.len() - processed,
        {
            let e = self.entries.remove(0);
            let keep_it = e.0 != k && is_fresh(e.2, now, self.ttl);
            proof {
                assert(orig.skip(processed).first() == orig[processed]);
                assert(orig.skip(processed).drop_first() =~= orig.skip(processed + 1));
                assert(orig.take(processed + 1).drop_last() =~= orig.take(processed));
                assert(orig.take(processed + 1).last() == orig[processed]);
                reveal(Seq::filter);
            }
            let ghost before = kept@;
            if keep_it {
                kept.push(e);
                proof {
                    assert(kept@ =~= before.push(orig[processed]));
                }
            }
            proof {
                processed = processed + 1;
            }
        }
        proof {
            assert(orig.take(orig.len() as int) =~= orig);
            orig.lemma_filter_len(keep);
        }
        let ghost base = orig.filter(keep);
        let at_capacity = match self.capacity {
            Some(c) => kept.len() >= c,
            None => false,
        };
        if at_capacity {
            kept.remove(0);
            proof {
                assert(kept@ =~= base.drop_first());
            }
        }
        kept.push((k, v, now));
        self.entries = kept;
        proof {
            let ev = self.entries@;
            let n = ev.len();
            assert(ev == insert_seq(orig, k, v, now, self.ttl, self.capacity));
            // uniqueness: every kept entry came through the filter, so none has key k
            assert forall|i: int, j: int| 0 <= i < j < n implies (#[trigger] ev[i]).0 != (
                #[trigger] ev[j]).0 by {
                let room = if at_capacity {
                    base.drop_first()
                } else {
                    base
                };
                if j < n - 1 {
                    // both are filtered survivors of orig, which had unique keys
                    let bi = if at_capacity { i + 1 } else { i };
                    let bj = if at_capacity { j + 1 } else { j };
                    assert(room[i] == base[bi]);
                    assert(room[j] == base[bj]);
                    lemma_filter_unique_keys(orig, keep, bi, bj);
                } else {
                    // the new entry has key k, which the filter removed
                    let bi = if at_capacity { i + 1 } else { i };
                    assert(ev[i] == base[bi]);
                    orig.lemma_filter_pred(keep, bi);
                }
            }
            // the fresh entry is found
            let room = if at_capacity {
                base.drop_first()
            } else {
                base
            };
            assert forall|i: int| 0 <= i < room.len() implies (#[trigger] room[i]).0 != k by {
                let bi = if at_capacity { i + 1 } else { i };
                assert(room[i] == base[bi]);
                orig.lemma_filter_pred(keep, bi);
            }
            lemma_lookup_pushed(room, k, v, now);
        }
    }

    /// Look a key up without consuming it. Returns the value exactly
    /// when the key is present and its entry has not expired; in
    /// particular, at or past `inserted-at + TTL` nothing is
    /// returned.
    pub fn get(&self, k: u64, now: u64) -> (r: Option<&V>)
        ensures
            ({
                let l = lookup_seq(self.entries_view(), k);
                &&& (r is Some <==> (l is Some && !expired_at((l->0).1, now, self.ttl_spec())))
                &&& (r is Some ==> *r->0 == (l->0).0)
            }),
    {
        let n = self.entries.len();
        let ghost ev = self.entries@;
        proof {
            assert(ev.skip(0) =~= ev);
        }
        for i in 0..n
            invariant
                n == ev.len(),
                ev == self.entries@,
                lookup_seq(ev, k) == lookup_seq(ev.skip(i as int), k),
        {
            proof {
                assert(ev.skip(i as int).first() == ev[i as int]);
                assert(ev.skip(i as int).drop_first() =~= ev.skip(i + 1));
            }
            if self.entries[i].0 == k {
                let fresh = is_fresh(self.entries[i].2, now, self.ttl);
                if fresh {
                    return Some(&self.entries[i].1);
                } else {
                    return None;
                }
            }
        }
        proof {
            assert(ev.skip(n as int) =~= Seq::<(u64, V, u64)>::empty());
        }
        None
    }

    /// Take a key's entry out. Returns the value exactly when the key
    /// was present and not expired; the entry is gone either way.
    pub fn remove(&mut self, k: u64, now: u64) -> (r: Option<V>)
        requires
            old(self).wf(),
        ensures
            final(self).wf(),
            final(self).entries_view() == old(self).entries_view().filter(other_key(k)),
            final(self).ttl_spec() == old(self).ttl_spec(),
            final(self).capacity_spec() == old(self).capacity_spec(),
            lookup_seq(final(self).entries_view(), k) is None,
            ({
                let l = lookup_seq(old(self).entries_view(), k);
                &&& (r is Some <==> (l is Some && !expired_at((l->0).1, now, old(self).ttl_spec())))
                &&& (r is Some ==> r->0 == (l->0).0)
            }),
    {
        let ghost orig = self.entries@;
        let ghost old_ttl = self.ttl;
        let ghost keep = other_key::<V>(k);
        let mut kept: Vec<(u64, V, u64)> = Vec::new();
        let mut found: Option<V> = None;
        let ghost processed: int = 0;
        let ghost seen: bool = false;
        proof {
            assert(orig.skip(0) =~= orig);
        }
        while self.entries.len() != 0
            invariant
                orig == old(self).entries_view(),
                0 <= processed <= orig.len(),
                self.entries@ == orig.skip(processed),
                self.ttl == old_ttl,
                self.capacity == old(self).capacity,
                old(self).wf(),
                keep == other_key::<V>(k),
                kept@ == orig.take(processed).filter(keep),
                !seen ==> lookup_seq(orig, k) == lookup_seq(orig.skip(processed), k) && found
                    is None,
                seen ==> !has_key(orig.skip(processed), k) && (found is Some <==> (lookup_seq(
                    orig,
                    k,
                ) is Some && !expired_at((lookup_seq(orig, k)->0).1, now, old_ttl))) && (found
                    is Some ==> found->0 == (lookup_seq(orig, k)->0).0),
            decreases orig.len() - processed,
        {
            let e = self.entries.remove(0);
            proof {
                assert(orig.skip(processed).first() == orig[processed]);
                assert(orig.skip(processed).drop_first() =~= orig.skip(processed + 1));
                assert(orig.take(processed + 1).drop_last() =~= orig.take(processed));
                assert(orig.take(processed + 1).last() == orig[processed]);
                reveal(Seq::filter);
            }
            let ghost before = kept@;
            if e.0 != k {
                kept.push(e);
                proof {
                    assert(kept@ =~= before.push(orig[processed]));
                }
            } else {
                let fresh = is_fresh(e.2, now, self.ttl);
                proof {
                    // keys are unique, so the key occurs nowhere later
                    if has_key(orig.skip(processed + 1), k) {
                        let wit = choose|i: int|
                            0 <= i < orig.skip(processed + 1).len() && (#[trigger] orig.skip(
                                processed + 1,
                            )[i]).0 == k;
                        assert(orig[processed + 1 + wit].0 == k);
                        assert(orig[processed].0 == k);
                        assert(old(self).entries_view() == orig);
                        assert((#[trigger] old(self).entries_view()[processed]).0 != (
                        #[trigger] old(self).entries_view()[processed + 1 + wit]).0);
                        assert(false);
                    }
                    assert(lookup_seq(orig.skip(processed), k) == Some((e.1, e.2)));
                    seen = true;
                }
                if fresh {
                    found = Some(e.1);
                } else {
                    found = None;
                }
            }
            proof {
                processed = processed + 1;
            }
        }
        proof {
            assert(orig.take(orig.len() as int) =~= orig);
            assert(orig.skip(orig.len() as int) =~= Seq::<(u64, V, u64)>::empty());
            if !seen {
                assert(lookup_seq(orig, k) is None);
            }
        }
        self.entries = kept;
        proof {
            let ev = self.entries@;
            assert forall|i: int, j: int| 0 <= i < j < ev.len() implies (#[trigger] ev[i]).0 != (
                #[trigger] ev[j]).0 by {
                lemma_filter_unique_keys(orig, keep, i, j);
            }
            orig.lemma_filter_len(keep);
            assert forall|i: int| 0 <= i < ev.len() implies (#[trigger] ev[i]).0 != k by {
                orig.lemma_filter_pred(keep, i);
            }
            lemma_lookup_absent(ev, k);
        }
        found
    }
}

/// Whether an entry inserted at `at` is still live at `now`.
fn is_fresh(at: u64, now: u64, ttl: Option<u64>) -> (r: bool)
    ensures
        r == !expired_at(at, now, ttl),
{
    match ttl {
        Some(d) => {
            if d > u64::MAX - at {
                true
            } else {
                now < at + d
            }
        },
        None => true,
    }
}

/// Filtering a sequence with unique keys leaves unique keys, and
/// distinct filtered positions hold entries from distinct originals.
proof fn lemma_filter_unique_keys<V>(
    s: Seq<(u64, V, u64)>,
    pred: spec_fn((u64, V, u64)) -> bool,
    i: int,
    j: int,
)
    requires
        forall|p: int, q: int|
            0 <= p < q < s.len() ==> (#[trigger] s[p]).0 != (#[trigger] s[q]).0,
        0 <= i < j < s.filter(pred).len(),
    ensures
        s.filter(pred)[i].0 != s.filter(pred)[j].0,
    decreases s.len(),
{
    reveal(Seq::filter);
    if s.len() > 0 {
        let f = s.filter(pred);
        let ff = s.drop_last().filter(pred);
        s.drop_last().lemma_filter_len(pred);
        if pred(s.last()) {
            if j < f.len() - 1 {
                lemma_filter_unique_keys(s.drop_last(), pred, i, j);
            } else {
                // f[j] is s.last(); f[i] is in the filtered prefix, so
                // it equals some earlier original entry
                lemma_filter_member_of(s.drop_last(), pred, i);
                let w = choose|w: int|
                    0 <= w < s.drop_last().len() && #[trigger] s.drop_last()[w] == ff[i];
                assert(s[w] == f[i]);
                assert(s[s.len() - 1] == f[j]);
            }
        } else {
            lemma_filter_unique_keys(s.drop_last(), pred, i, j);
        }
    }
}

/// Every filtered entry occurs in the original sequence.
proof fn lemma_filter_member_of<V>(
    s: Seq<(u64, V, u64)>,
    pred: spec_fn((u64, V, u64)) -> bool,
    i: int,
)
    requires
        0 <= i < s.filter(pred).len(),
    ensures
        exists|w: int| 0 <= w < s.len() && #[trigger] s[w] == s.filter(pred)[i],
    decreases s.len(),
{
    reveal(Seq::filter);
    if s.len() > 0 {
        let f = s.filter(pred);
        let ff = s.drop_last().filter(pred);
        s.drop_last().lemma_filter_len(pred);
        if pred(s.last()) && i == f.len() - 1 {
            assert(s[s.len() - 1] == f[i]);
        } else {
            lemma_filter_member_of(s.drop_last(), pred, i);
            let w = choose|w: int|
                0 <= w < s.drop_last().len() && #[trigger] s.drop_last()[w] == ff[i];
            assert(s[w] == f[i]);
        }
    }
}

/// A key no entry has is not found.
pub proof fn lemma_lookup_absent<V>(s: Seq<(u64, V, u64)>, k: u64)
    requires
        !has_key(s, k),
    ensures
        lookup_seq(s, k) is None,
    decreases s.len(),
{
    if s.len() > 0 {
        assert(s[0].0 != k);
        assert(forall|i: int|
            0 <= i < s.drop_first().len() ==> (#[trigger] s.drop_first()[i]).0 != k) by {
            assert(forall|i: int|
                0 <= i < s.drop_first().len() ==> s.drop_first()[i] == s[i + 1]);
        }
        lemma_lookup_absent(s.drop_first(), k);
    }
}

/// Pushing a fresh key onto entries without it makes it found.
proof fn lemma_lookup_pushed<V>(s: Seq<(u64, V, u64)>, k: u64, v: V, now: u64)
    requires
        forall|i: int| 0 <= i < s.len() ==> (#[trigger] s[i]).0 != k,
    ensures
        lookup_seq(s.push((k, v, now)), k) == Some((v, now)),
    decreases s.len(),
{
    let p = s.push((k, v, now));
    if s.len() == 0 {
        assert(p.first().0 == k);
    } else {
        assert(p.first().0 != k);
        assert(p.drop_first() =~= s.drop_first().push((k, v, now)));
        assert(forall|i: int|
            0 <= i < s.drop_first().len() ==> (#[trigger] s.drop_first()[i]).0 != k) by {
            assert(forall|i: int|
                0 <= i < s.drop_first().len() ==> s.drop_first()[i] == s[i + 1]);
        }
        lemma_lookup_pushed(s.drop_first(), k, v, now);
    }
}

} // verus!
