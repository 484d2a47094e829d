//! The callers that wait for something from the network, each under the key by
//! which it is found.

use crate::message_id::{same_bytes, MessageId};
use vstd::prelude::*;

verus! {

/// What a caller is found by.
pub trait Key: View {
    /// Whether two keys are the same.
    fn same(&self, other: &Self) -> (same: bool)
        ensures
            same == (self@ == other@),
    ;
}

impl Key for MessageId {
    fn same(&self, other: &Self) -> (same: bool) {
        same_bytes(&self.bytes, &other.bytes)
    }
}

/// A query to one elder.
pub struct QueryKey {
    /// The address of the elder.
    pub socket_addr: String,
    /// The identifier of the query.
    pub msg_id: MessageId,
}

impl View for QueryKey {
    type V = (Seq<char>, Seq<u8>);

    open spec fn view(&self) -> (Seq<char>, Seq<u8>) {
        (self.socket_addr@, self.msg_id@)
    }
}

impl Key for QueryKey {
    fn same(&self, other: &Self) -> (same: bool) {
        self.socket_addr == other.socket_addr && same_bytes(
            &self.msg_id.bytes,
            &other.msg_id.bytes,
        )
    }
}

/// A map from keys to the channels on which the callers wait. No key occurs
/// twice.
pub struct Pending<K: Key, S> {
    entries: Vec<(K, S)>,
}

/// The entries by the views of their keys.
pub open spec fn entry_keys<K: Key, S>(entries: Seq<(K, S)>) -> Seq<K::V> {
    entries.map_values(|entry: (K, S)| entry.0@)
}

impl<K: Key, S> View for Pending<K, S> {
    type V = Map<K::V, S>;

    closed spec fn view(&self) -> Map<K::V, S> {
        Map::new(
            |key: K::V| entry_keys(self.entries@).contains(key),
            |key: K::V| self.entries@[entry_keys(self.entries@).index_of(key)].1,
        )
    }
}

impl<K: Key, S> Pending<K, S> {
    /// Whether no key occurs twice.
    pub closed spec fn wf(self) -> bool {
        entry_keys(self.entries@).no_duplicates()
    }

    /// A map in which nobody waits.
    pub fn new() -> (pending: Self)
        ensures
            pending@ == Map::<K::V, S>::empty(),
            pending.wf(),
    {
        let pending = Pending { entries: Vec::new() };
        assert(pending@ =~= Map::<K::V, S>::empty());
        pending
    }

    /// Where the entry of a key stands.
    fn position(&self, key: &K) -> (position: Option<usize>)
        requires
            self.wf(),
        ensures
            match position {
                Some(i) => i < self.entries.len() && self.entries@[i as int].0@ == key@
                    && entry_keys(self.entries@).index_of(key@) == i && self@.contains_key(key@),
                None => !self@.contains_key(key@) && !entry_keys(self.entries@).contains(key@),
            },
    {
        let mut i: usize = 0;
        while i < self.entries.len()
            invariant
                i <= self.entries.len(),
                self.wf(),
                forall|j: int| 0 <= j < i ==> (#[trigger] self.entries@[j]).0@ != key@,
            decreases self.entries.len() - i,
        {
            if self.entries[i].0.same(key) {
                assert(entry_keys(self.entries@)[i as int] == key@);
                assert(entry_keys(self.entries@).index_of(key@) == i);
                return Some(i);
            }
            i += 1;
        }
        None
    }

    /// Lets a caller wait under a key, in place of the one that waited there.
    pub fn insert(&mut self, key: K, sender: S)
        requires
            old(self).wf(),
        ensures
            final(self)@ == old(self)@.insert(key@, sender),
            final(self).wf(),
    {
        let ghost before = *self;
        match self.position(&key) {
            Some(i) => {
                self.entries.set(i, (key, sender));
                proof {
                    assert(entry_keys(self.entries@) =~= entry_keys(before.entries@));
                    assert(self@ =~= before@.insert(key@, sender));
                }
            },
            None => {
                self.entries.push((key, sender));
                proof {
                    let keys = entry_keys(self.entries@);
                    let keys_before = entry_keys(before.entries@);
                    assert(keys =~= keys_before.push(key@));
                    assert(keys[keys_before.len() as int] == key@);
                    assert(keys.index_of(key@) == keys_before.len());
                    assert forall|other: K::V| keys_before.contains(other) implies keys.contains(
                        other,
                    ) && keys.index_of(other) == keys_before.index_of(other) by {
                        let j = keys_before.index_of(other);
                        assert(keys[j] == other);
                    }
                    assert forall|other: K::V|
                        keys.contains(other) && other != key@ implies keys_before.contains(
                        other,
                    ) by {
                        let j = keys.index_of(other);
                        assert(keys_before[j] == other);
                    }
                    assert(self@ =~= before@.insert(key@, sender));
                }
            },
        }
    }

    /// The caller that waits under a key.
    pub fn get(&self, key: &K) -> (sender: Option<&S>)
        requires
            self.wf(),
        ensures
            match sender {
                Some(sender) => self@.contains_key(key@) && self@[key@] == *sender,
                None => !self@.contains_key(key@),
            },
    {
        match self.position(key) {
            Some(i) => Some(&self.entries[i].1),
            None => None,
        }
    }
}

/// Two queries are the same if and only if they go to the same address and carry the
/// same identifier.
pub proof fn law_query_is_told_by_elder_and_message(left: QueryKey, right: QueryKey)
    ensures
        left@ == right@ <==> left.socket_addr@ == right.socket_addr@ && left.msg_id.bytes@
            == right.msg_id.bytes@,
{
}

} // verus!
