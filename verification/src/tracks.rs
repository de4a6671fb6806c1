//! The tracks of a library by ID, in the order in which they were added.
use vstd::hash_map::StringHashMap;
use vstd::prelude::*;

use crate::track::{Track, TrackView};

verus! {

/// A track and the ID that it is found by.
struct TrackEntry {
    key: String,
    track: Track,
}

/// Tracks by ID. An ID is held once; its place is that of its first addition.
pub struct TrackMap {
    entries: Vec<TrackEntry>,
    places: StringHashMap<usize>,
}

impl TrackMap {
    /// The IDs, in order.
    pub closed spec fn keys(self) -> Seq<Seq<char>> {
        self.entries@.map_values(|e: TrackEntry| e.key@)
    }

    /// The tracks, in order.
    pub closed spec fn tracks(self) -> Seq<TrackView> {
        self.entries@.map_values(|e: TrackEntry| e.track@)
    }

    #[verifier::type_invariant]
    spec fn is_indexed(self) -> bool {
        &&& forall|i: int|
            0 <= i < self.entries@.len() ==> self.places@.contains_key(
                #[trigger] self.entries@[i].key@,
            ) && self.places@[self.entries@[i].key@] == i
        &&& forall|k: Seq<char>| #[trigger]
            self.places@.contains_key(k) ==> self.places@[k] < self.entries@.len()
                && self.entries@[self.places@[k] as int].key@ == k
    }
}

/// The map from keys to the values at the same places.
pub open spec fn map_of(keys: Seq<Seq<char>>, values: Seq<TrackView>) -> Map<Seq<char>, TrackView> {
    Map::new(|k: Seq<char>| keys.contains(k), |k: Seq<char>| values[keys.index_of(k)])
}

impl View for TrackMap {
    type V = Map<Seq<char>, TrackView>;

    open spec fn view(&self) -> Map<Seq<char>, TrackView> {
        map_of(self.keys(), self.tracks())
    }
}

/// Without repetition, a key has one place.
pub proof fn index_of_key(keys: Seq<Seq<char>>, i: int)
    requires
        keys.no_duplicates(),
        0 <= i < keys.len(),
    ensures
        keys.contains(keys[i]),
        keys.index_of(keys[i]) == i,
{
    assert(keys.contains(keys[i]));
    let j = keys.index_of(keys[i]);
    assert(keys[j] == keys[i] && 0 <= j < keys.len());
}

impl TrackMap {
    /// No tracks.
    pub fn new() -> (m: Self)
        ensures
            m.keys() == Seq::<Seq<char>>::empty(),
            m.tracks() == Seq::<TrackView>::empty(),
            m@ == Map::<Seq<char>, TrackView>::empty(),
    {
        let m = TrackMap { entries: Vec::new(), places: StringHashMap::new() };
        proof {
            assert(m.keys() =~= Seq::empty());
            assert(m.tracks() =~= Seq::empty());
            assert(m@ =~= Map::empty());
        }
        m
    }

    /// How many tracks there are.
    pub fn len(&self) -> (n: usize)
        ensures
            n == self.keys().len(),
            n == self.tracks().len(),
            self.keys().no_duplicates(),
            n == self@.len(),
    {
        proof {
            use_type_invariant(self);
            let ks = self.keys();
            assert forall|i: int, j: int| 0 <= i < ks.len() && 0 <= j < ks.len() && i != j implies ks[i]
                != ks[j] by {
                assert(ks[i] == self.entries@[i].key@);
                assert(ks[j] == self.entries@[j].key@);
            }
            assert(self@.dom() =~= ks.to_set());
            ks.unique_seq_to_set();
        }
        self.entries.len()
    }

    /// The ID at a place.
    pub fn key_at(&self, i: usize) -> (k: &String)
        requires
            i < self.keys().len(),
        ensures
            k@ == self.keys()[i as int],
    {
        &self.entries[i].key
    }

    /// The track at a place.
    pub fn track_at(&self, i: usize) -> (t: &Track)
        requires
            i < self.keys().len(),
        ensures
            t@ == self.tracks()[i as int],
            self@.contains_key(self.keys()[i as int]),
            self@[self.keys()[i as int]] == t@,
    {
        proof {
            self.lemma_place(i as int);
        }
        let n: usize = self.len();
        proof {
            index_of_key(self.keys(), i as int);
        }
        &self.entries[i].track
    }

    proof fn lemma_place(&self, i: int)
        requires
            0 <= i < self.keys().len(),
        ensures
            self.tracks().len() == self.keys().len(),
    {
    }

    /// The track with an ID.
    pub fn get(&self, id: &str) -> (r: Option<&Track>)
        ensures
            match r {
                Some(t) => self@.contains_key(id@) && t@ == self@[id@],
                None => !self@.contains_key(id@),
            },
    {
        proof {
            use_type_invariant(self);
        }
        let n: usize = self.len();
        match self.places.get(id) {
            Some(i) => {
                proof {
                    assert(self.keys()[*i as int] == id@);
                    index_of_key(self.keys(), *i as int);
                }
                Some(&self.entries[*i].track)
            },
            None => {
                proof {
                    if self.keys().contains(id@) {
                        let j = choose|j: int| 0 <= j < self.keys().len() && self.keys()[j] == id@;
                        assert(self.entries@[j].key@ == id@);
                    }
                }
                None
            },
        }
    }

    /// Whether there is a track with an ID.
    pub fn contains_key(&self, id: &str) -> (r: bool)
        ensures
            r == self@.contains_key(id@),
    {
        self.get(id).is_some()
    }

    /// Adds a track, or replaces the one with the same ID.
    pub fn insert(&mut self, id: String, track: Track)
        ensures
            final(self)@ == old(self)@.insert(id@, track@),
            old(self)@.contains_key(id@) ==> {
                &&& final(self).keys() == old(self).keys()
                &&& final(self).tracks() == old(self).tracks().update(
                    old(self).keys().index_of(id@),
                    track@,
                )
            },
            !old(self)@.contains_key(id@) ==> {
                &&& final(self).keys() == old(self).keys().push(id@)
                &&& final(self).tracks() == old(self).tracks().push(track@)
            },
    {
        let n: usize = self.len();
        let known: bool = self.contains_key(id.as_str());
        let mut taken = TrackMap::new();
        core::mem::swap(self, &mut taken);
        proof {
            use_type_invariant(&taken);
        }
        let ghost before = taken;
        let ghost idv = id@;
        let ghost tv = track@;
        let TrackMap { mut entries, mut places } = taken;
        proof {
            let ks = before.keys();
            assert forall|j: int| 0 <= j < ks.len() implies ks[j] == #[trigger] before.entries@[j].key@ by {}
        }
        if known {
            let mut at: usize = 0;
            if let Some(i) = places.get(id.as_str()) {
                at = *i;
            }
            proof {
                let j = choose|j: int| 0 <= j < before.keys().len() && before.keys()[j] == idv;
                assert(before.entries@[j].key@ == idv);
            }
            entries.set(at, TrackEntry { key: id, track });
            *self = TrackMap { entries, places };
            proof {
                let m = *self;
                assert(m.keys() =~= before.keys());
                assert(m.tracks() =~= before.tracks().update(at as int, tv));
                assert(before.keys()[at as int] == idv);
                index_of_key(before.keys(), at as int);
                assert forall|k: Seq<char>| before.keys().contains(k) && k != idv implies m@[k]
                    == before@[k] by {
                    let j = before.keys().index_of(k);
                    assert(before.keys()[j] == k);
                }
                assert(m@ =~= before@.insert(idv, tv));
            }
        } else {
            let at: usize = entries.len();
            entries.push(TrackEntry { key: id.clone(), track });
            places.insert(id, at);
            proof {
                assert(!before.keys().contains(idv));
                assert forall|j: int| 0 <= j < before.entries@.len() implies before.entries@[j].key@
                    != idv by {
                    assert(before.keys()[j] == before.entries@[j].key@);
                }
                assert forall|j: int| 0 <= j < entries@.len() implies places@.contains_key(
                    #[trigger] entries@[j].key@,
                ) && places@[entries@[j].key@] == j by {
                    if j < at {
                        assert(entries@[j] == before.entries@[j]);
                    }
                }
                assert forall|k: Seq<char>| #[trigger] places@.contains_key(k) implies places@[k]
                    < entries@.len() && entries@[places@[k] as int].key@ == k by {
                    if k != idv {
                        assert(before.places@.contains_key(k));
                    }
                }
            }
            *self = TrackMap { entries, places };
            proof {
                let m = *self;
                assert(m.keys() =~= before.keys().push(idv));
                assert(m.tracks() =~= before.tracks().push(tv));
                assert forall|k: Seq<char>| before.keys().contains(k) implies m@.contains_key(k)
                    && m@[k] == before@[k] by {
                    let j = before.keys().index_of(k);
                    assert(before.keys()[j] == k);
                    assert(m.keys()[j] == k);
                    assert(m.keys().no_duplicates());
                    index_of_key(m.keys(), j);
                }
                assert(m.keys()[at as int] == idv);
                index_of_key(m.keys(), at as int);
                assert forall|k: Seq<char>| m@.contains_key(k) implies k == idv
                    || before@.contains_key(k) by {
                    let j = m.keys().index_of(k);
                    assert(m.keys()[j] == k);
                    if j < at {
                        assert(before.keys()[j] == k);
                    }
                }
                assert(m@ =~= before@.insert(idv, tv));
            }
        }
    }

    /// Puts another track at a place.
    pub fn replace_at(&mut self, i: usize, track: Track)
        requires
            i < old(self).keys().len(),
        ensures
            final(self).keys() == old(self).keys(),
            final(self).tracks() == old(self).tracks().update(i as int, track@),
            final(self)@ == old(self)@.insert(old(self).keys()[i as int], track@),
    {
        let n: usize = self.len();
        let mut taken = TrackMap::new();
        core::mem::swap(self, &mut taken);
        proof {
            use_type_invariant(&taken);
        }
        let ghost before = taken;
        let ghost tv = track@;
        let TrackMap { mut entries, places } = taken;
        let key: String = entries[i].key.clone();
        entries.set(i, TrackEntry { key, track });
        *self = TrackMap { entries, places };
        proof {
            let m = *self;
            assert(m.keys() =~= before.keys());
            assert(m.tracks() =~= before.tracks().update(i as int, tv));
            index_of_key(before.keys(), i as int);
            let idv = before.keys()[i as int];
            assert forall|k: Seq<char>| before.keys().contains(k) && k != idv implies m@[k]
                == before@[k] by {
                let j = before.keys().index_of(k);
                assert(before.keys()[j] == k);
            }
            assert(m@ =~= before@.insert(idv, tv));
        }
    }

    /// Marks the track with an ID, if there is one.
    pub fn set_on_device(&mut self, id: &str, on_device: bool)
        ensures
            final(self).keys() == old(self).keys(),
            final(self)@ == (if old(self)@.contains_key(id@) {
                old(self)@.insert(id@, old(self)@[id@].marked(on_device))
            } else {
                old(self)@
            }),
    {
        let changed: Option<Track> = match self.get(id) {
            Some(t) => {
                let mut c: Track = t.clone();
                c.on_device = on_device;
                Some(c)
            },
            None => None,
        };
        if let Some(c) = changed {
            self.insert(id.to_owned(), c);
        }
    }

    /// How many tracks are marked.
    pub fn count_on_device(&self) -> (n: usize)
        ensures
            n == self.tracks().filter(|t: TrackView| t.on_device).len(),
    {
        let total: usize = self.len();
        let mut n: usize = 0;
        let mut i: usize = 0;
        let ghost all = self.tracks();
        let ghost f = |t: TrackView| t.on_device;
        proof {
            reveal(Seq::filter);
            assert(all.take(0).filter(f).len() == 0);
        }
        while i < total
            invariant
                total == self.keys().len(),
                total == all.len(),
                all == self.tracks(),
                f == |t: TrackView| t.on_device,
                n <= i <= total,
                n == all.take(i as int).filter(f).len(),
            decreases total - i,
        {
            proof {
                reveal(Seq::filter);
                assert(all.take(i + 1).drop_last() =~= all.take(i as int));
            }
            if self.track_at(i).on_device {
                n = n + 1;
            }
            i = i + 1;
        }
        assert(all.take(total as int) =~= all);
        n
    }

    /// Takes over the marks of tracks with the same IDs.
    pub fn copy_marks(&mut self, from: &TrackMap)
        ensures
            final(self).keys() == old(self).keys(),
            final(self)@ == marks_copied(old(self)@, from@),
    {
        let n: usize = from.len();
        let mut i: usize = 0;
        let ghost before = self@;
        let ghost keys = from.keys();
        while i < n
            invariant
                n == keys.len(),
                keys == from.keys(),
                keys.no_duplicates(),
                i <= n,
                self.keys() == old(self).keys(),
                forall|k: Seq<char>| self@.contains_key(k) <==> #[trigger] before.contains_key(k),
                forall|k: Seq<char>| #[trigger]
                    before.contains_key(k) ==> self@[k] == (if keys.take(i as int).contains(k) {
                        before[k].marked(from@[k].on_device)
                    } else {
                        before[k]
                    }),
            decreases n - i,
        {
            let ghost mid = self@;
            let mark: bool = from.track_at(i).on_device;
            self.set_on_device(from.key_at(i).as_str(), mark);
            proof {
                let id = keys[i as int];
                let taken = keys.take(i as int);
                assert(keys.take(i + 1) =~= taken.push(id));
                assert forall|k: Seq<char>| #[trigger] before.contains_key(k) implies self@[k] == (
                if keys.take(i + 1).contains(k) {
                    before[k].marked(from@[k].on_device)
                } else {
                    before[k]
                }) by {
                    if k == id {
                        assert(keys.take(i + 1)[i as int] == k);
                    } else {
                        if taken.contains(k) {
                            let j = choose|j: int| 0 <= j < taken.len() && taken[j] == k;
                            assert(keys.take(i + 1)[j] == k);
                        }
                        if keys.take(i + 1).contains(k) {
                            let next = keys.take(i + 1);
                            let j = choose|j: int| 0 <= j < next.len() && next[j] == k;
                            assert(taken[j] == k);
                        }
                        assert(mid[k] == self@[k]);
                    }
                }
            }
            i = i + 1;
        }
        proof {
            assert(keys.take(n as int) =~= keys);
            assert(self@ =~= marks_copied(before, from@));
        }
    }

    /// Moves every track from one music root of the device to another.
    pub fn rebase(&mut self, old_root: &str, new_root: &str)
        ensures
            final(self).keys() == old(self).keys(),
            final(self)@ == all_rebased(old(self)@, old_root@, new_root@),
    {
        let n: usize = self.len();
        let mut i: usize = 0;
        let ghost before = self@;
        let ghost keys = self.keys();
        while i < n
            invariant
                n == keys.len(),
                keys == self.keys(),
                keys == old(self).keys(),
                keys.no_duplicates(),
                i <= n,
                forall|k: Seq<char>| #[trigger] before.contains_key(k) <==> keys.contains(k),
                forall|k: Seq<char>| #[trigger]
                    before.contains_key(k) ==> self@[k] == (if keys.index_of(k) < i {
                        before[k].rebased(old_root@, new_root@)
                    } else {
                        before[k]
                    }),
            decreases n - i,
        {
            let mut t: Track = self.track_at(i).clone();
            t.rebase_device_path(old_root, new_root);
            let ghost mid = self@;
            self.replace_at(i, t);
            proof {
                index_of_key(keys, i as int);
                let ki = keys[i as int];
                assert(before.contains_key(ki));
                assert forall|k: Seq<char>| #[trigger] before.contains_key(k) implies self@[k] == (
                if keys.index_of(k) < i + 1 {
                    before[k].rebased(old_root@, new_root@)
                } else {
                    before[k]
                }) by {
                    if k != ki {
                        assert(keys[keys.index_of(k)] == k);
                        assert(mid[k] == self@[k]);
                    }
                }
            }
            i = i + 1;
        }
        proof {
            assert forall|k: Seq<char>| #[trigger] before.contains_key(k) implies self@[k]
                == before[k].rebased(old_root@, new_root@) by {
                assert(keys[keys.index_of(k)] == k);
            }
            assert(self@ =~= all_rebased(before, old_root@, new_root@));
        }
    }
}

impl Clone for TrackMap {
    fn clone(&self) -> (r: Self)
        ensures
            r.keys() == self.keys(),
            r.tracks() == self.tracks(),
            r@ == self@,
    {
        let n: usize = self.len();
        let mut r = TrackMap::new();
        let mut i: usize = 0;
        let ghost keys = self.keys();
        proof {
            assert(keys.take(0) =~= Seq::empty());
        }
        while i < n
            invariant
                n == keys.len(),
                n == self.tracks().len(),
                keys == self.keys(),
                keys.no_duplicates(),
                i <= n,
                r.keys() == keys.take(i as int),
                forall|k: Seq<char>| #[trigger] r@.contains_key(k) ==> self@.contains_key(k) && r@[k]
                    == self@[k],
            decreases n - i,
        {
            let ghost before = r@;
            let ghost had = r.keys();
            proof {
                let id = keys[i as int];
                if before.contains_key(id) {
                    let j = choose|j: int| 0 <= j < had.len() && had[j] == id;
                    assert(keys[j] == id);
                }
            }
            let t: Track = self.track_at(i).clone();
            r.insert(self.key_at(i).clone(), t);
            proof {
                assert(keys.take(i + 1) =~= keys.take(i as int).push(keys[i as int]));
            }
            i = i + 1;
        }
        let m: usize = r.len();
        proof {
            assert(keys.take(n as int) =~= keys);
            assert forall|k: Seq<char>| self@.contains_key(k) implies r@.contains_key(k) by {}
            assert(r@ =~= self@);
            assert forall|j: int| 0 <= j < keys.len() implies r.tracks()[j] == self.tracks()[j] by {
                index_of_key(keys, j);
                assert(r@[keys[j]] == self@[keys[j]]);
            }
            assert(r.tracks() =~= self.tracks());
        }
        r
    }
}

/// The tracks with the marks of those with the same IDs in `from`.
pub open spec fn marks_copied(
    tracks: Map<Seq<char>, TrackView>,
    from: Map<Seq<char>, TrackView>,
) -> Map<Seq<char>, TrackView> {
    Map::new(
        |k: Seq<char>| tracks.contains_key(k),
        |k: Seq<char>|
            if from.contains_key(k) {
                tracks[k].marked(from[k].on_device)
            } else {
                tracks[k]
            },
    )
}

/// The tracks, moved from one music root to another.
pub open spec fn all_rebased(
    tracks: Map<Seq<char>, TrackView>,
    old_root: Seq<char>,
    new_root: Seq<char>,
) -> Map<Seq<char>, TrackView> {
    Map::new(
        |k: Seq<char>| tracks.contains_key(k),
        |k: Seq<char>| tracks[k].rebased(old_root, new_root),
    )
}

} // verus!
