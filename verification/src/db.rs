//! The store: values by key, the deadlines at which they expire, and the
//! channels on which messages are published.

use crate::buf::bytes_contents;
use crate::expirations::{
    lemma_ordered_first_is_earliest, lemma_remove_in_order, ordered, Expirations,
};
use crate::time::duration_nanos;
use bytes::Bytes;
use std::time::Duration;
use tokio::sync::broadcast::error::SendError;
use tokio::sync::broadcast::{channel, Receiver, Sender};
use vstd::hash_map::StringHashMap;
use vstd::prelude::*;

verus! {

/// How many messages a channel retains for receivers that lag behind.
pub const CHANNEL_CAPACITY: usize = 1024;

/// A stored value.
pub struct Entry {
    data: Bytes,
    expires_at: Option<u128>,
}

/// What a stored value is: its bytes, and the instant at which it expires,
/// if it does. Instants are nanoseconds on the clock of whoever drives the
/// store.
pub struct EntryView {
    pub data: Seq<u8>,
    pub expires_at: Option<u128>,
}

impl View for Entry {
    type V = EntryView;

    closed spec fn view(&self) -> EntryView {
        EntryView { data: bytes_contents(self.data), expires_at: self.expires_at }
    }
}

/// The state of the store.
pub struct State {
    entries: StringHashMap<Entry>,
    expirations: Expirations,
    pub_sub: StringHashMap<Sender<Bytes>>,
    shutdown: bool,
}

/// What the state of the store is.
pub struct StateView {
    /// The stored values by key.
    pub entries: Map<Seq<char>, EntryView>,
    /// The index of deadlines, earliest first.
    pub expirations: Seq<(u128, Seq<char>)>,
    /// The sender of every channel that exists, by the channel's name.
    pub senders: Map<Seq<char>, Sender<Bytes>>,
    /// Whether the store was told to shut down.
    pub shutdown: bool,
}

impl View for State {
    type V = StateView;

    closed spec fn view(&self) -> StateView {
        StateView {
            entries: Map::new(
                |k: Seq<char>| self.entries@.contains_key(k),
                |k: Seq<char>| self.entries@[k]@,
            ),
            expirations: self.expirations@,
            senders: self.pub_sub@,
            shutdown: self.shutdown,
        }
    }
}

/// Whether a value with this deadline has expired at the instant `now`.
pub open spec fn due(expires_at: Option<u128>, now: u128) -> bool {
    expires_at is Some && expires_at->0 <= now
}

impl StateView {
    /// Whether the index of deadlines and the stored values agree: the index
    /// is in order, every deadline in it is the deadline of the value stored
    /// under its key, and every stored value that expires has its deadline
    /// in the index.
    pub open spec fn consistent(self) -> bool {
        &&& ordered(self.expirations)
        &&& forall|d: (u128, Seq<char>)| #[trigger]
            self.expirations.contains(d) ==> self.entries.contains_key(d.1)
                && self.entries[d.1].expires_at == Some(d.0)
        &&& forall|k: Seq<char>| #[trigger]
            self.entries.contains_key(k) && self.entries[k].expires_at is Some
                ==> self.expirations.contains((self.entries[k].expires_at->0, k))
    }

    /// The names of the channels that exist.
    pub open spec fn channels(self) -> Set<Seq<char>> {
        self.senders.dom()
    }

    /// The earliest deadline in the index, if it holds any.
    pub open spec fn next_expiration(self) -> Option<u128> {
        if self.expirations.len() == 0 {
            None
        } else {
            Some(self.expirations[0].0)
        }
    }
}

/// Whether `after` is `before` with `value` stored under `key`, to expire at
/// `expires_at` if that is an instant. The value replaces what was stored
/// under the key; the key's old deadline leaves the index and the new one,
/// if any, enters it.
pub open spec fn is_set(
    before: StateView,
    after: StateView,
    key: Seq<char>,
    value: Seq<u8>,
    expires_at: Option<u128>,
) -> bool {
    &&& after.entries == before.entries.insert(key, EntryView { data: value, expires_at })
    &&& ordered(after.expirations)
    &&& forall|d: (u128, Seq<char>)| #[trigger]
        after.expirations.contains(d) <==> (before.expirations.contains(d) && d.1 != key) || (
        expires_at == Some(d.0) && d.1 == key)
    &&& after.senders == before.senders
    &&& after.shutdown == before.shutdown
}

/// Whether `after` is `before` without the values that have expired at the
/// instant `now`, and without their deadlines.
pub open spec fn is_purge(before: StateView, after: StateView, now: u128) -> bool {
    &&& forall|k: Seq<char>| #[trigger]
        after.entries.contains_key(k) <==> before.entries.contains_key(k) && !due(
            before.entries[k].expires_at,
            now,
        )
    &&& forall|k: Seq<char>| #[trigger]
        after.entries.contains_key(k) ==> after.entries[k] == before.entries[k]
    &&& ordered(after.expirations)
    &&& forall|d: (u128, Seq<char>)| #[trigger]
        after.expirations.contains(d) <==> before.expirations.contains(d) && d.0 > now
    &&& after.senders == before.senders
    &&& after.shutdown == before.shutdown
}

/// Whether `after` is `before` with the channel `channel` in being: a
/// channel that exists keeps its sender, and with it its receivers; one that
/// does not comes into being with a sender of its own. Nothing else changes.
pub open spec fn is_subscribe(before: StateView, after: StateView, channel: Seq<char>) -> bool {
    &&& after.senders.contains_key(channel)
    &&& before.senders.contains_key(channel) ==> after.senders == before.senders
    &&& !before.senders.contains_key(channel) ==> after.senders.remove(channel)
        == before.senders
    &&& after.entries == before.entries
    &&& after.expirations == before.expirations
    &&& after.shutdown == before.shutdown
}

/// Storing a value keeps the index of deadlines and the stored values in
/// agreement.
pub proof fn lemma_set_keeps_consistent(
    before: StateView,
    after: StateView,
    key: Seq<char>,
    value: Seq<u8>,
    expires_at: Option<u128>,
)
    requires
        before.consistent(),
        is_set(before, after, key, value, expires_at),
    ensures
        after.consistent(),
{
    assert forall|k: Seq<char>| #[trigger]
        after.entries.contains_key(k) && after.entries[k].expires_at is Some implies after.expirations.contains(
        (after.entries[k].expires_at->0, k),
    ) by {
        let d = (after.entries[k].expires_at->0, k);
        if k != key {
            assert(before.entries.contains_key(k));
            assert(before.expirations.contains(d));
        }
    }
}

/// Purging keeps the index of deadlines and the stored values in agreement.
pub proof fn lemma_purge_keeps_consistent(before: StateView, after: StateView, now: u128)
    requires
        before.consistent(),
        is_purge(before, after, now),
    ensures
        after.consistent(),
{
    assert forall|d: (u128, Seq<char>)| #[trigger]
        after.expirations.contains(d) implies after.entries.contains_key(d.1)
        && after.entries[d.1].expires_at == Some(d.0) by {
        assert(before.expirations.contains(d));
        assert(before.entries.contains_key(d.1));
    }
    assert forall|k: Seq<char>| #[trigger]
        after.entries.contains_key(k) && after.entries[k].expires_at is Some implies after.expirations.contains(
        (after.entries[k].expires_at->0, k),
    ) by {
        assert(before.entries.contains_key(k));
        assert(before.expirations.contains((before.entries[k].expires_at->0, k)));
    }
}

/// A value that is stored with a deadline is there until its deadline: a
/// purge at an earlier instant leaves it in place.
pub proof fn lemma_value_stays_before_deadline(
    before: StateView,
    stored: StateView,
    purged: StateView,
    key: Seq<char>,
    value: Seq<u8>,
    deadline: u128,
    now: u128,
)
    requires
        is_set(before, stored, key, value, Some(deadline)),
        is_purge(stored, purged, now),
        now < deadline,
    ensures
        stored.entries.contains_key(key) && stored.entries[key].data == value,
        purged.entries.contains_key(key) && purged.entries[key].data == value,
{
    assert(stored.entries.contains_key(key));
    assert(!due(stored.entries[key].expires_at, now));
    assert(purged.entries.contains_key(key));
}

/// A value that is stored with a deadline is gone after it: a purge at the
/// deadline or later removes it.
pub proof fn lemma_value_gone_after_deadline(
    before: StateView,
    stored: StateView,
    purged: StateView,
    key: Seq<char>,
    value: Seq<u8>,
    deadline: u128,
    now: u128,
)
    requires
        is_set(before, stored, key, value, Some(deadline)),
        is_purge(stored, purged, now),
        deadline <= now,
    ensures
        !purged.entries.contains_key(key),
{
    assert(stored.entries.contains_key(key));
    assert(due(stored.entries[key].expires_at, now));
}

/// Storing a value without a deadline over one that had a deadline leaves no
/// deadline for the key in the index.
pub proof fn lemma_overwrite_clears_deadline(
    before: StateView,
    first: StateView,
    second: StateView,
    key: Seq<char>,
    value: Seq<u8>,
    deadline: u128,
    other: Seq<u8>,
)
    requires
        is_set(before, first, key, value, Some(deadline)),
        is_set(first, second, key, other, None),
    ensures
        first.expirations.contains((deadline, key)),
        forall|d: (u128, Seq<char>)| second.expirations.contains(d) ==> d.1 != key,
{
    assert(first.expirations.contains((deadline, key)));
}

/// What the task that purges does after a round of purging.
#[derive(Debug, Clone, Copy, PartialEq, Eq, Structural)]
pub enum PurgeStep {
    /// Stop: the store shuts down.
    Exit,
    /// Sleep until the instant, or until woken, and purge again.
    SleepUntil(u128),
    /// Sleep until woken, and purge again.
    WaitForNotify,
}

/// How many receivers a message reached, going by what sending it came to:
/// the number that the channel reports, and none where sending failed for
/// want of a receiver.
pub fn receiver_count(outcome: Result<usize, SendError<Bytes>>) -> (count: usize)
    ensures
        outcome is Ok ==> count == outcome->Ok_0,
        outcome is Err ==> count == 0,
{
    match outcome {
        Ok(count) => count,
        Err(_) => 0,
    }
}

impl State {
    /// Whether the state is as every state that this module hands out is:
    /// its index of deadlines and its stored values agree.
    pub open spec fn wf(&self) -> bool {
        self@.consistent()
    }

    /// An empty store.
    pub fn new() -> (r: State)
        ensures
            r.wf(),
            r@.entries == Map::<Seq<char>, EntryView>::empty(),
            r@.expirations.len() == 0,
            r@.senders == Map::<Seq<char>, Sender<Bytes>>::empty(),
            !r@.shutdown,
    {
        let r = State {
            entries: StringHashMap::new(),
            expirations: Expirations::new(),
            pub_sub: StringHashMap::new(),
            shutdown: false,
        };
        assert(r@.entries =~= Map::<Seq<char>, EntryView>::empty());
        r
    }

    /// The value stored under `key`, if there is one.
    pub fn get(&self, key: &str) -> (r: Option<Bytes>)
        ensures
            r is Some <==> self@.entries.contains_key(key@),
            r is Some ==> bytes_contents(r->0) == self@.entries[key@].data,
    {
        match self.entries.get(key) {
            Some(entry) => Some(entry.data.clone()),
            None => None,
        }
    }

    /// The earliest deadline in the index, if it holds any.
    pub fn next_expiration(&self) -> (r: Option<u128>)
        ensures
            r == self@.next_expiration(),
    {
        self.expirations.first()
    }

    /// Stores `value` under `key`, replacing what was stored there. With
    /// `expire` the value expires that span after `now`.
    ///
    /// Returns whether whoever purges must be woken: whether the value
    /// expires, and does so before every deadline that was in the index.
    pub fn set(&mut self, key: String, value: Bytes, expire: Option<Duration>, now: u128) -> (notify:
        bool)
        requires
            old(self).wf(),
            expire is Some ==> now + duration_nanos(expire->0) <= u128::MAX,
        ensures
            final(self).wf(),
            is_set(
                old(self)@,
                final(self)@,
                key@,
                bytes_contents(value),
                match expire {
                    Some(span) => Some((now + duration_nanos(span)) as u128),
                    None => None,
                },
            ),
            notify == (expire is Some && match old(self)@.next_expiration() {
                Some(earliest) => now + duration_nanos(expire->0) < earliest,
                None => true,
            }),
    {
        let mut notify = false;
        let expires_at = match expire {
            Some(span) => {
                let when: u128 = now + span.as_nanos();
                notify =
                match self.next_expiration() {
                    Some(earliest) => earliest > when,
                    None => true,
                };
                Some(when)
            },
            None => None,
        };
        let prev = match self.entries.get(key.as_str()) {
            Some(entry) => entry.expires_at,
            None => None,
        };
        let ghost before = self@;
        self.entries.insert(key.clone(), Entry { data: value, expires_at });
        match prev {
            Some(when) => {
                self.expirations.remove(when, key.as_str());
            },
            None => {},
        }
        let ghost name = key@;
        match expires_at {
            Some(when) => {
                self.expirations.insert(when, key);
            },
            None => {},
        }
        proof {
            let after = self@;
            let entry = EntryView { data: bytes_contents(value), expires_at };
            assert(after.entries =~= before.entries.insert(name, entry));
            assert forall|d: (u128, Seq<char>)| #[trigger]
                after.expirations.contains(d) <==> (before.expirations.contains(d) && d.1 != name)
                    || (expires_at == Some(d.0) && d.1 == name) by {
                if before.expirations.contains(d) && d.1 == name {
                    assert(before.entries.contains_key(name));
                    assert(prev == Some(d.0));
                }
                if prev is Some {
                    assert(before.entries.contains_key(name));
                    assert(before.expirations.contains((prev->0, name)));
                }
            }
            lemma_set_keeps_consistent(before, after, name, bytes_contents(value), expires_at);
        }
        notify
    }

    /// Subscribes to the channel `key`. A channel that exists keeps its
    /// sender and gets one more receiver from it; a channel that does not
    /// comes into being, with room for `CHANNEL_CAPACITY` messages, and its
    /// first receiver is returned.
    pub fn subscribe(&mut self, key: String) -> (r: Receiver<Bytes>)
        requires
            old(self).wf(),
        ensures
            final(self).wf(),
            is_subscribe(old(self)@, final(self)@, key@),
            final(self)@.channels() == old(self)@.channels().insert(key@),
    {
        let existing = match self.pub_sub.get(key.as_str()) {
            Some(tx) => Some(tx.subscribe()),
            None => None,
        };
        match existing {
            Some(rx) => {
                assert(self@.channels() =~= old(self)@.channels().insert(key@));
                rx
            },
            None => {
                let (tx, rx) = channel(CHANNEL_CAPACITY);
                self.pub_sub.insert(key, tx);
                assert(self@.channels() =~= old(self)@.channels().insert(key@));
                assert(self@.senders.remove(key@) =~= old(self)@.senders);
                assert(self@.entries =~= old(self)@.entries);
                rx
            },
        }
    }

    /// Publishes `value` on the channel `key` and returns how many receivers
    /// it reached: none where the channel does not exist or has no receiver
    /// left, and the number that the channel reports otherwise.
    pub fn publish(&self, key: &str, value: Bytes) -> (count: usize)
        ensures
            !self@.channels().contains(key@) ==> count == 0,
    {
        match self.pub_sub.get(key) {
            Some(tx) => receiver_count(tx.send(value)),
            None => 0,
        }
    }

    /// Tells the store to shut down, which ends purging.
    pub fn shutdown(&mut self)
        ensures
            final(self)@ == (StateView { shutdown: true, ..old(self)@ }),
    {
        self.shutdown = true;
    }

    /// Whether the store was told to shut down.
    pub fn is_shutdown(&self) -> (r: bool)
        ensures
            r == self@.shutdown,
    {
        self.shutdown
    }

    /// Removes the values that have expired at the instant `now`, and
    /// returns the earliest deadline that is left, if there is one.
    ///
    /// After shutdown nothing is removed and nothing returned.
    pub fn purge_expired_keys(&mut self, now: u128) -> (r: Option<u128>)
        requires
            old(self).wf(),
        ensures
            final(self).wf(),
            old(self)@.shutdown ==> r is None && final(self)@ == old(self)@,
            !old(self)@.shutdown ==> is_purge(old(self)@, final(self)@, now),
            !old(self)@.shutdown ==> r == final(self)@.next_expiration(),
            r is Some ==> r->0 > now,
    {
        if self.shutdown {
            return None;
        }
        let ghost before = self@;
        let mut r: Option<u128> = None;
        loop
            invariant
                self.wf(),
                before == old(self)@,
                before.consistent(),
                !before.shutdown,
                self@.shutdown == before.shutdown,
                self@.senders == before.senders,
                forall|k: Seq<char>| #[trigger]
                    self@.entries.contains_key(k) ==> before.entries.contains_key(k)
                        && self@.entries[k] == before.entries[k],
                forall|k: Seq<char>| #[trigger]
                    before.entries.contains_key(k) && !self@.entries.contains_key(k) ==> due(
                        before.entries[k].expires_at,
                        now,
                    ),
                forall|d: (u128, Seq<char>)| #[trigger]
                    self@.expirations.contains(d) ==> before.expirations.contains(d),
                forall|d: (u128, Seq<char>)| #[trigger]
                    before.expirations.contains(d) && d.0 > now ==> self@.expirations.contains(d),
            ensures
                self.wf(),
                is_purge(before, self@, now),
                r == self@.next_expiration(),
                r is Some ==> r->0 > now,
            decreases self@.expirations.len(),
        {
            let ghost current = self@;
            let next = self.expirations.first();
            match next {
                Some(when) if when <= now => {},
                _ => {
                    proof {
                        lemma_ordered_first_is_earliest(current.expirations);
                        assert forall|d: (u128, Seq<char>)| #[trigger]
                            current.expirations.contains(d) implies d.0 > now by {
                            let i = choose|i: int|
                                0 <= i < current.expirations.len() && current.expirations[i] == d;
                            assert(current.expirations[0].0 <= current.expirations[i].0);
                        }
                        assert forall|k: Seq<char>| #[trigger]
                            current.entries.contains_key(k) <==> before.entries.contains_key(k)
                                && !due(before.entries[k].expires_at, now) by {
                            if current.entries.contains_key(k) && current.entries[k].expires_at is Some {
                                assert(current.expirations.contains(
                                    (current.entries[k].expires_at->0, k),
                                ));
                            }
                        }
                    }
                    r = next;
                    break;
                },
            }
            let (when, key) = self.expirations.remove_first();
            self.entries.remove(key.as_str());
            proof {
                let after = self@;
                let gone = (when, key@);
                lemma_remove_in_order(current.expirations, 0);
                lemma_ordered_first_is_earliest(current.expirations);
                assert(current.expirations.contains(gone));
                assert(current.entries.contains_key(key@));
                assert(after.entries =~= current.entries.remove(key@));
                assert forall|d: (u128, Seq<char>)| #[trigger]
                    after.expirations.contains(d) implies after.entries.contains_key(d.1)
                    && after.entries[d.1].expires_at == Some(d.0) by {
                    assert(current.expirations.contains(d));
                }
                assert forall|k: Seq<char>| #[trigger]
                    after.entries.contains_key(k) && after.entries[k].expires_at is Some implies after.expirations.contains(
                    (after.entries[k].expires_at->0, k),
                ) by {
                    assert(current.entries.contains_key(k));
                    assert(current.expirations.contains((current.entries[k].expires_at->0, k)));
                }
            }
        }
        r
    }

    /// One round of the task that purges, at the instant `now`: the values
    /// that have expired are removed, and the task is told what to do until
    /// the next round. After shutdown nothing is removed and the task is
    /// told to stop.
    pub fn purge_step(&mut self, now: u128) -> (r: PurgeStep)
        requires
            old(self).wf(),
        ensures
            final(self).wf(),
            old(self)@.shutdown ==> r == PurgeStep::Exit && final(self)@ == old(self)@,
            !old(self)@.shutdown ==> is_purge(old(self)@, final(self)@, now) && r == (
            match final(self)@.next_expiration() {
                Some(earliest) => PurgeStep::SleepUntil(earliest),
                None => PurgeStep::WaitForNotify,
            }),
            r is SleepUntil ==> r->SleepUntil_0 > now,
    {
        if self.is_shutdown() {
            return PurgeStep::Exit;
        }
        match self.purge_expired_keys(now) {
            Some(earliest) => PurgeStep::SleepUntil(earliest),
            None => PurgeStep::WaitForNotify,
        }
    }
}

} // verus!
