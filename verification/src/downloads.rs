//! Finished exports waiting to be downloaded: each is kept under its number
//! for a quarter of an hour, and handed out once.

use vstd::prelude::*;
use std::collections::HashMap;

verus! {

broadcast use vstd::std_specs::hash::group_hash_axioms;

/// How long a finished export is kept, in seconds.
pub const KEEP_SECS: u64 = 900;

/// A finished export: the file name and type it is downloaded under, where
/// it lies, whether that file is removed once it is no longer needed, and
/// when it was stored (seconds on a monotonic clock).
#[derive(Debug)]
pub struct StoredDownload {
    pub filename: String,
    pub mime: String,
    pub path: String,
    pub delete_after: bool,
    pub created: u64,
}

/// The finished exports, by number.
pub struct DownloadStore {
    pub entries: HashMap<u64, StoredDownload>,
}

/// An export stored at `created` is still kept at `now`.
pub open spec fn still_kept(created: u64, now: u64) -> bool {
    if now >= created { now - created < KEEP_SECS } else { true }
}

/// The entries still kept at `now`.
pub open spec fn kept(m: Map<u64, StoredDownload>, now: u64) -> Map<u64, StoredDownload> {
    Map::new(|k: u64| m.contains_key(k) && still_kept(m[k].created, now), |k: u64| m[k])
}

/// The entry numbered `k` has expired at `now` and its file is to be removed.
pub open spec fn file_to_remove(m: Map<u64, StoredDownload>, now: u64, k: u64) -> bool {
    m.contains_key(k) && !still_kept(m[k].created, now) && m[k].delete_after
}

/// The numbers of a map, each once, in some order.
fn keys_of(m: &HashMap<u64, StoredDownload>) -> (r: Vec<u64>)
    ensures
        r@.to_set() == m@.dom(),
        r@.no_duplicates(),
{
    let ghost ks: Seq<u64> = vstd::std_specs::iter::IteratorSpec::remaining(
        &vstd::std_specs::hash::spec_keys_iter(m),
    ).unref();
    let mut r: Vec<u64> = Vec::new();
    for k in it: m.keys()
        invariant
            ks.to_set() == m@.dom(),
            ks.no_duplicates(),
            it.seq().unref() == ks,
            r@ == ks.take(it.index() as int),
    {
        assert(ks.take(it.index() as int + 1) =~= ks.take(it.index() as int).push(*k));
        r.push(*k);
    }
    assert(r@ =~= ks);
    r
}

impl DownloadStore {
    /// An empty store.
    pub fn new() -> (r: DownloadStore)
        ensures
            r.entries@ == Map::<u64, StoredDownload>::empty(),
    {
        DownloadStore { entries: HashMap::new() }
    }

    /// Stores a finished export under `id` at time `now`, in place of one
    /// with the same number; entries older than [`KEEP_SECS`] are dropped.
    /// Gives the files of dropped entries that are to be removed, each once
    /// (in no particular order).
    pub fn put(&mut self, id: u64, entry: StoredDownload, now: u64) -> (r: Vec<String>)
        ensures
            final(self).entries@ == kept(old(self).entries@, now).insert(id, entry),
            exists|ks: Seq<u64>|
                #![trigger ks.no_duplicates()]
                ks.no_duplicates() && (forall|k: u64| #[trigger] ks.contains(k) <==> file_to_remove(old(self).entries@, now, k))
                    && r@.map_values(|s: String| s@) == ks.map_values(|k: u64| old(self).entries@[k].path@),
    {
        let ghost m0 = self.entries@;
        let keys = keys_of(&self.entries);
        let mut gone: Vec<String> = Vec::new();
        let ghost mut ks: Seq<u64> = Seq::empty();
        let mut i: usize = 0;
        while i < keys.len()
            invariant
                i <= keys.len(),
                keys@.to_set() == m0.dom(),
                keys@.no_duplicates(),
                self.entries@ == Map::new(
                    |k: u64| m0.contains_key(k) && (!keys@.take(i as int).contains(k) || still_kept(m0[k].created, now)),
                    |k: u64| m0[k],
                ),
                ks.no_duplicates(),
                forall|k: u64| #[trigger] ks.contains(k) <==> (keys@.take(i as int).contains(k) && file_to_remove(m0, now, k)),
                gone@.map_values(|s: String| s@) == ks.map_values(|k: u64| m0[k].path@),
            decreases keys.len() - i,
        {
            let k = keys[i];
            assert(keys@.to_set().contains(k));
            assert(keys@.take(i + 1) =~= keys@.take(i as int).push(k));
            assert(!keys@.take(i as int).contains(k)) by {
                if keys@.take(i as int).contains(k) {
                    let j = choose|j: int| 0 <= j < i && keys@.take(i as int)[j] == k;
                    assert(keys@[j] == keys@[i as int]);
                }
            }
            let ghost ks0 = ks;
            assert(self.entries@.contains_key(k) && self.entries@[k] == m0[k]);
            let expired = match self.entries.get(&k) {
                Some(v) => if now >= v.created { now - v.created >= KEEP_SECS } else { false },
                None => false,
            };
            if expired {
                let ghost before = self.entries@;
                match self.entries.remove(&k) {
                    Some(v) => {
                        if v.delete_after {
                            let ghost g = gone@.map_values(|s: String| s@);
                            proof {
                                assert(!ks.contains(k));
                                ks = ks.push(k);
                            }
                            gone.push(v.path);
                            assert(gone@.map_values(|s: String| s@) =~= g.push(m0[k].path@));
                        }
                    },
                    None => {},
                }
            }
            assert(expired == !still_kept(m0[k].created, now));
            assert(ks == if file_to_remove(m0, now, k) { ks0.push(k) } else { ks0 });
            proof {
                let t0 = keys@.take(i as int);
                let t1 = keys@.take(i + 1);
                assert(t1 == t0.push(k));
                assert forall|x: u64| #[trigger] ks.contains(x) <==> (t1.contains(x) && file_to_remove(m0, now, x)) by {
                    assert(ks0.contains(x) <==> (t0.contains(x) && file_to_remove(m0, now, x)));
                    if file_to_remove(m0, now, k) {
                        if ks0.contains(x) {
                            let j = choose|j: int| 0 <= j < ks0.len() && ks0[j] == x;
                            assert(ks[j] == x);
                        }
                        if x == k {
                            assert(ks[ks0.len() as int] == k);
                        }
                        if ks.contains(x) && x != k {
                            let j = choose|j: int| 0 <= j < ks.len() && ks[j] == x;
                            assert(j < ks0.len());
                            assert(ks0[j] == x);
                        }
                    }
                    if t0.contains(x) {
                        let j = choose|j: int| 0 <= j < t0.len() && t0[j] == x;
                        assert(t1[j] == x);
                    }
                    if t1.contains(x) && x != k {
                        let j = choose|j: int| 0 <= j < t1.len() && t1[j] == x;
                        assert(j < t0.len());
                        assert(t0[j] == x);
                    }
                    if x == k {
                        assert(t1[t0.len() as int] == k);
                    }
                }
                assert(ks.map_values(|k: u64| m0[k].path@).len() == ks.len());
            }
            i = i + 1;
            proof {
                let t0 = keys@.take(i - 1);
                let t1 = keys@.take(i as int);
                assert(t1 == t0.push(k));
                assert forall|x: u64| t1.contains(x) && x != k implies t0.contains(x) by {
                    let j = choose|j: int| 0 <= j < t1.len() && t1[j] == x;
                    assert(j < t0.len());
                    assert(t0[j] == x);
                }
                assert forall|x: u64| t0.contains(x) implies t1.contains(x) by {
                    let j = choose|j: int| 0 <= j < t0.len() && t0[j] == x;
                    assert(t1[j] == x);
                }
                assert(t1[t0.len() as int] == k);
                assert(self.entries@ =~= Map::new(
                    |x: u64| m0.contains_key(x) && (!t1.contains(x) || still_kept(m0[x].created, now)),
                    |x: u64| m0[x],
                ));
            }
        }
        assert(keys@.take(i as int) =~= keys@);
        assert(self.entries@ =~= kept(m0, now)) by {
            assert forall|x: u64| m0.contains_key(x) implies keys@.contains(x) by {
                assert(keys@.to_set().contains(x));
            }
        }
        assert forall|x: u64| #[trigger] ks.contains(x) <==> file_to_remove(m0, now, x) by {
            if file_to_remove(m0, now, x) {
                assert(keys@.to_set().contains(x));
            }
        }
        self.entries.insert(id, entry);
        gone
    }

    /// Hands out the export numbered `id` once: it leaves the store.
    pub fn take(&mut self, id: u64) -> (r: Option<StoredDownload>)
        ensures
            r == old(self).entries@.get(id),
            final(self).entries@ == old(self).entries@.remove(id),
    {
        self.entries.remove(&id)
    }
}

} // verus!
