//! Jobs that stream G-code to the machine, and the small pieces of state
//! the server keeps around them.
use vstd::prelude::*;
use std::collections::HashMap;
use std::sync::Arc;
use crate::gcode::GCodeFormatSpecification;

verus! {

broadcast use vstd::std_specs::hash::group_hash_axioms;

/// The job's channel to the machine is gone.
#[derive(Debug, Clone, Copy, PartialEq, Eq, Structural)]
pub struct JobFail;

/// Notices sent to a running job.
#[derive(Debug, Clone, Copy, PartialEq, Eq, Structural)]
pub enum MessageToJob {
    /// The feed was held; the job is not responsible for holding it.
    FeedHeld,
    /// The feed was resumed; the job is not responsible for resuming it.
    FeedResumed,
    RequestStop,
}

/// What a running job reports.
#[derive(Debug)]
pub enum MessageFromJob {
    Status(String),
    Complete,
}

/// A job that sends the lines of a stream of known length.
pub struct StreamJob<S>(pub S, pub usize);

impl<S> StreamJob<S> {
    pub fn new(stream: S, size: usize) -> (j: Self)
        ensures
            j.0 == stream,
            j.1 == size,
    {
        StreamJob(stream, size)
    }
}

/// A future that may be absent; an absent one never completes.
pub struct FutureOrPending<F> {
    pub future: Option<F>,
}

impl<F> FutureOrPending<F> {
    pub fn new(future: Option<F>) -> (r: Self)
        ensures
            r.future == future,
    {
        FutureOrPending { future }
    }

    pub fn is_none(&self) -> (b: bool)
        ensures
            b == (self.future is None),
    {
        self.future.is_none()
    }

    pub fn is_some(&self) -> (b: bool)
        ensures
            b == (self.future is Some),
    {
        self.future.is_some()
    }

    /// Forgets the future once it has completed.
    pub fn complete(&mut self)
        ensures
            final(self).future is None,
    {
        self.future = None;
    }
}

impl<F> From<Option<F>> for FutureOrPending<F> {
    fn from(future: Option<F>) -> (r: Self) {
        FutureOrPending { future }
    }
}

impl<F> vstd::std_specs::convert::FromSpecImpl<Option<F>> for FutureOrPending<F> {
    open spec fn obeys_from_spec() -> bool {
        true
    }

    open spec fn from_spec(v: Option<F>) -> Self {
        FutureOrPending { future: v }
    }
}

/// `Arc::clone`: another pointer to the same value.
#[verifier::external_body]
fn share<V>(a: &Arc<V>) -> (b: Arc<V>)
    ensures
        *b == **a,
{
    Arc::clone(a)
}

/// A map whose entries are shared and counted: the first request for a key
/// stores the value given with it, every request for that key gets the stored
/// value, and the key is removed when its last entry is given back.
pub struct ArcHashMap<V> {
    map: HashMap<u64, (u64, Arc<V>)>,
}

/// A shared entry of an [`ArcHashMap`], to be given back with `release`.
pub struct ArcHashMapEntry<V> {
    key: u64,
    entry: Arc<V>,
}

/// The stored values and entry counts after an entry for `key` is taken,
/// `value` being stored when the key has none.
pub open spec fn entry_taken<V>(entries: Map<u64, V>, counts: Map<u64, u64>, key: u64, value: V) -> (
    Map<u64, V>,
    Map<u64, u64>,
) {
    if counts.contains_key(key) {
        (entries, counts.insert(key, (counts[key] + 1) as u64))
    } else {
        (entries.insert(key, value), counts.insert(key, 1))
    }
}

/// The stored values and entry counts after an entry for `key` comes back:
/// the key goes with its last entry.
pub open spec fn entry_given_back<V>(entries: Map<u64, V>, counts: Map<u64, u64>, key: u64) -> (
    Map<u64, V>,
    Map<u64, u64>,
) {
    if counts[key] == 1 {
        (entries.remove(key), counts.remove(key))
    } else {
        (entries, counts.insert(key, (counts[key] - 1) as u64))
    }
}

impl<V> ArcHashMap<V> {
    /// The value stored under each key.
    pub closed spec fn entries(&self) -> Map<u64, V> {
        self.map@.map_values(|p: (u64, Arc<V>)| *p.1)
    }

    /// How many entries of each key are out.
    pub closed spec fn counts(&self) -> Map<u64, u64> {
        self.map@.map_values(|p: (u64, Arc<V>)| p.0)
    }

    /// Every stored key has an entry out.
    pub closed spec fn wf(&self) -> bool {
        forall|k: u64| #[trigger] self.map@.contains_key(k) ==> self.map@[k].0 >= 1
    }

    pub fn new() -> (m: Self)
        ensures
            m.wf(),
            m.entries() == Map::<u64, V>::empty(),
            m.counts() == Map::<u64, u64>::empty(),
            m.entries().dom() == m.counts().dom(),
    {
        let m = ArcHashMap { map: HashMap::new() };
        assert(m.entries() =~= Map::<u64, V>::empty());
        assert(m.counts() =~= Map::<u64, u64>::empty());
        m
    }

    /// An entry for `key`, storing `value` there first when the key has none.
    pub fn get_or_else(&mut self, key: u64, value: V) -> (e: ArcHashMapEntry<V>)
        requires
            old(self).wf(),
            old(self).counts().contains_key(key) ==> old(self).counts()[key] < u64::MAX,
        ensures
            final(self).wf(),
            final(self).entries().dom() == final(self).counts().dom(),
            (final(self).entries(), final(self).counts()) == entry_taken(
                old(self).entries(),
                old(self).counts(),
                key,
                value,
            ),
            e.key() == key,
            old(self).entries().contains_key(key) ==> {
                &&& final(self).entries() == old(self).entries()
                &&& final(self).counts() == old(self).counts().insert(
                    key,
                    (old(self).counts()[key] + 1) as u64,
                )
                &&& e.value() == old(self).entries()[key]
            },
            !old(self).entries().contains_key(key) ==> {
                &&& final(self).entries() == old(self).entries().insert(key, value)
                &&& final(self).counts() == old(self).counts().insert(key, 1)
                &&& e.value() == value
            },
    {
        let ghost before = self.map@;
        let found = match self.map.get(&key) {
            Some(p) => Some((p.0, share(&p.1), share(&p.1))),
            None => None,
        };
        match found {
            Some((c, kept, given)) => {
                assert(before.contains_key(key));
                self.map.insert(key, (c + 1, kept));
                proof {
                    assert(self.entries() =~= before.map_values(|p: (u64, Arc<V>)| *p.1));
                    assert(self.counts() =~= before.map_values(|p: (u64, Arc<V>)| p.0).insert(
                        key,
                        (c + 1) as u64,
                    ));
                }
                ArcHashMapEntry { key, entry: given }
            },
            None => {
                let kept = Arc::new(value);
                let given = share(&kept);
                self.map.insert(key, (1, kept));
                proof {
                    assert(self.entries() =~= before.map_values(|p: (u64, Arc<V>)| *p.1).insert(
                        key,
                        value,
                    ));
                    assert(self.counts() =~= before.map_values(|p: (u64, Arc<V>)| p.0).insert(
                        key,
                        1,
                    ));
                }
                ArcHashMapEntry { key, entry: given }
            },
        }
    }

    /// Gives an entry back; the key is removed when its last entry comes back.
    pub fn release(&mut self, e: ArcHashMapEntry<V>)
        requires
            old(self).wf(),
            old(self).counts().contains_key(e.key()),
        ensures
            final(self).wf(),
            final(self).entries().dom() == final(self).counts().dom(),
            (final(self).entries(), final(self).counts()) == entry_given_back(
                old(self).entries(),
                old(self).counts(),
                e.key(),
            ),
            old(self).counts()[e.key()] == 1 ==> {
                &&& final(self).entries() == old(self).entries().remove(e.key())
                &&& final(self).counts() == old(self).counts().remove(e.key())
            },
            old(self).counts()[e.key()] != 1 ==> {
                &&& final(self).entries() == old(self).entries()
                &&& final(self).counts() == old(self).counts().insert(
                    e.key(),
                    (old(self).counts()[e.key()] - 1) as u64,
                )
            },
    {
        let ghost before = self.map@;
        let key = e.key;
        let (c, kept) = match self.map.get(&key) {
            Some(p) => (p.0, share(&p.1)),
            None => {
                assert(false);
                return;
            },
        };
        if c == 1 {
            self.map.remove(&key);
            proof {
                assert(self.entries() =~= before.map_values(|p: (u64, Arc<V>)| *p.1).remove(key));
                assert(self.counts() =~= before.map_values(|p: (u64, Arc<V>)| p.0).remove(key));
            }
        } else {
            self.map.insert(key, (c - 1, kept));
            proof {
                assert(self.entries() =~= before.map_values(|p: (u64, Arc<V>)| *p.1));
                assert(self.counts() =~= before.map_values(|p: (u64, Arc<V>)| p.0).insert(
                    key,
                    (c - 1) as u64,
                ));
            }
        }
    }
}

impl<V> ArcHashMapEntry<V> {
    pub closed spec fn value(&self) -> V {
        *self.entry
    }

    pub closed spec fn key(&self) -> u64 {
        self.key
    }

    /// The shared value.
    pub fn get(&self) -> (v: &V)
        ensures
            *v == self.value(),
    {
        &*self.entry
    }
}

/// One call on an [`ArcHashMap`]: taking an entry for a key (with the value
/// to store if the key has none), or giving back the entry taken by the
/// `n`-th call.
pub enum EntryEvent<V> {
    Get(u64, V),
    Release(nat),
}

/// Whether the entry taken by call `n` was given back by a later call.
pub open spec fn released<V>(events: Seq<EntryEvent<V>>, n: nat) -> bool
    decreases events.len(),
{
    if events.len() == 0 {
        false
    } else {
        (events.last() == EntryEvent::<V>::Release(n) && n < events.len() - 1) || released(
            events.drop_last(),
            n,
        )
    }
}

proof fn lemma_not_released_yet<V>(events: Seq<EntryEvent<V>>, n: nat)
    requires
        n >= events.len(),
    ensures
        !released(events, n),
    decreases events.len(),
{
    if events.len() > 0 {
        lemma_not_released_yet(events.drop_last(), n);
    }
}

/// Whether call `i` took an entry for `key`.
pub open spec fn takes_key<V>(events: Seq<EntryEvent<V>>, i: nat, key: u64) -> bool {
    &&& i < events.len()
    &&& events[i as int] is Get
    &&& events[i as int]->Get_0 == key
}

/// The calls whose entries for `key` are still out.
pub open spec fn live_entries<V>(events: Seq<EntryEvent<V>>, key: u64) -> Set<nat>
    decreases events.len(),
{
    if events.len() == 0 {
        Set::empty()
    } else {
        let before = live_entries(events.drop_last(), key);
        match events.last() {
            EntryEvent::Get(k, _) => if k == key {
                before.insert((events.len() - 1) as nat)
            } else {
                before
            },
            EntryEvent::Release(n) => before.remove(n),
        }
    }
}

/// Whether the map takes the call `e` after `events`: a count stays within
/// `u64`, and only an entry that was taken and not yet given back is given back.
pub open spec fn entry_call_ok<V>(events: Seq<EntryEvent<V>>, counts: Map<u64, u64>, e: EntryEvent<V>) -> bool {
    match e {
        EntryEvent::Get(k, _) => counts.contains_key(k) ==> counts[k] < u64::MAX,
        EntryEvent::Release(n) => n < events.len() && events[n as int] is Get && !released(
            events,
            n,
        ),
    }
}

/// The stored values and counts after the calls, from a new map; `None` when
/// a call would not be taken.
pub open spec fn entry_replay<V>(events: Seq<EntryEvent<V>>) -> Option<(Map<u64, V>, Map<u64, u64>)>
    decreases events.len(),
{
    if events.len() == 0 {
        Some((Map::empty(), Map::empty()))
    } else {
        let prefix = events.drop_last();
        match entry_replay(prefix) {
            Some((entries, counts)) => if entry_call_ok(prefix, counts, events.last()) {
                match events.last() {
                    EntryEvent::Get(k, v) => Some(entry_taken(entries, counts, k, v)),
                    EntryEvent::Release(n) => Some(
                        entry_given_back(entries, counts, events[n as int]->Get_0),
                    ),
                }
            } else {
                None
            },
            None => None,
        }
    }
}

/// The calls holding an entry for `key` are exactly the takings of `key`
/// not given back.
proof fn lemma_live_entries<V>(events: Seq<EntryEvent<V>>, key: u64)
    ensures
        live_entries(events, key).finite(),
        forall|i: nat|
            #[trigger] live_entries(events, key).contains(i) <==> (takes_key(events, i, key) && !released(events, i)),
    decreases events.len(),
{
    if events.len() > 0 {
        let prefix = events.drop_last();
        let l = (events.len() - 1) as nat;
        lemma_live_entries(prefix, key);
        lemma_not_released_yet(prefix, l);
        assert forall|i: nat|
            #[trigger] live_entries(events, key).contains(i) <==> (takes_key(events, i, key)
                && !released(events, i)) by {
            if i < l {
                assert(events[i as int] == prefix[i as int]);
                assert(takes_key(events, i, key) == takes_key(prefix, i, key));
            } else if i == l {
                assert(!live_entries(prefix, key).contains(i));
                assert(events[i as int] == events.last());
            } else {
                assert(!live_entries(prefix, key).contains(i));
                lemma_not_released_yet(prefix, i);
            }
        }
    }
}

/// Law: a key is in the map exactly while an entry for it is out, and its
/// count is the number of its entries out.
pub proof fn law_key_present_while_entry_out<V>(events: Seq<EntryEvent<V>>, key: u64)
    requires
        entry_replay(events) is Some,
    ensures
        ({
            let (entries, counts) = entry_replay(events)->0;
            &&& entries.dom() == counts.dom()
            &&& counts.contains_key(key) <==> live_entries(events, key).len() > 0
            &&& counts.contains_key(key) ==> counts[key] == live_entries(events, key).len()
        }),
    decreases events.len(),
{
    lemma_live_entries(events, key);
    if events.len() > 0 {
        let prefix = events.drop_last();
        law_key_present_while_entry_out(prefix, key);
        lemma_live_entries(prefix, key);
        let (entries, counts) = entry_replay(prefix)->0;
        let before = live_entries(prefix, key);
        match events.last() {
            EntryEvent::Get(k, v) => {
                if k == key {
                    assert(!before.contains((events.len() - 1) as nat));
                }
            },
            EntryEvent::Release(n) => {
                let k = prefix[n as int]->Get_0;
                lemma_live_entries(prefix, k);
                law_key_present_while_entry_out(prefix, k);
                assert(live_entries(prefix, k).contains(n));
                if k != key {
                    assert(!before.contains(n));
                    assert(before.remove(n) =~= before);
                }
            },
        }
    }
}

/// How the server writes G-code: axes `XYZA`, arc offsets `IJK`, three digits
/// after the point.
pub fn default_settings() -> (s: GCodeFormatSpecification)
    ensures
        s.axis_letters@ == seq![88u8, 89u8, 90u8, 65u8],
        s.offset_axis_letters@ == seq![73u8, 74u8, 75u8],
        s.float_digits == 3,
{
    let s = GCodeFormatSpecification {
        axis_letters: vec![88u8, 89u8, 90u8, 65u8],
        offset_axis_letters: vec![73u8, 74u8, 75u8],
        float_digits: 3,
    };
    assert(s.axis_letters@ =~= seq![88u8, 89u8, 90u8, 65u8]);
    assert(s.offset_axis_letters@ =~= seq![73u8, 74u8, 75u8]);
    s
}

/// Whether a ring bounds a region from outside or from inside.
#[derive(Debug, Clone, Copy, PartialEq, Eq, Structural)]
pub enum RingKind {
    Exterior,
    Interior,
}

/// The direction a cutter travels around a region.
#[derive(Debug, Clone, Copy, PartialEq, Eq, Structural)]
pub enum MillingMode {
    /// Clockwise, keeping the cutting edge on the left of the clockwise-spinning bit.
    Normal,
    Climb,
}

} // verus!
