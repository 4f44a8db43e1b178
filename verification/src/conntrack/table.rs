//! The table of live connections.

use crate::conntrack::conn::Conn;
use crate::conntrack::conn_info::Trackable;
use hashlink::LinkedHashMap;
use vstd::prelude::*;

verus! {

/// The hasher that `hashlink` uses unless told otherwise.
#[verifier::external_type_specification]
#[verifier::external_body]
pub struct ExDefaultHashBuilder(hashlink::DefaultHashBuilder);

/// `hashlink`'s map that remembers the order of its entries.
#[verifier::external_type_specification]
#[verifier::external_body]
#[verifier::reject_recursive_types(K)]
#[verifier::reject_recursive_types(V)]
#[verifier::reject_recursive_types(S)]
pub struct ExLinkedHashMap<K, V, S>(LinkedHashMap<K, V, S>);

/// Two endpoints, each an address and a port, and a transport protocol.
pub type ConnId = (u128, u16, u128, u16, usize);

/// What a map from connection keys to slots holds.
pub uninterp spec fn slots_of(map: LinkedHashMap<ConnId, usize>) -> Map<ConnId, usize>;

/// A map that holds nothing.
pub open spec fn no_slots() -> Map<ConnId, usize> {
    Map::empty()
}

/// Calls `LinkedHashMap::new`, which holds nothing.
#[verifier::external_body]
fn new_map() -> (m: LinkedHashMap<ConnId, usize>)
    ensures
        slots_of(m) == no_slots(),
{
    LinkedHashMap::new()
}

/// Calls `LinkedHashMap::get`, which finds the value of a key.
#[verifier::external_body]
fn map_get(map: &LinkedHashMap<ConnId, usize>, key: ConnId) -> (r: Option<usize>)
    ensures
        r == (if slots_of(*map).contains_key(key) {
            Some(slots_of(*map)[key])
        } else {
            None
        }),
{
    map.get(&key).copied()
}

/// Calls `LinkedHashMap::insert`, which sets the value of a key and leaves the others.
#[verifier::external_body]
fn map_insert(map: &mut LinkedHashMap<ConnId, usize>, key: ConnId, slot: usize)
    ensures
        slots_of(*final(map)) == slots_of(*old(map)).insert(key, slot),
{
    map.insert(key, slot);
}

/// Calls `LinkedHashMap::remove`, which removes a key and leaves the others.
#[verifier::external_body]
fn map_remove(map: &mut LinkedHashMap<ConnId, usize>, key: ConnId)
    ensures
        slots_of(*final(map)) == slots_of(*old(map)).remove(key),
{
    map.remove(&key);
}

/// The connections that are being tracked, by their identifiers.
pub struct ConnTable<T: Trackable> {
    index: LinkedHashMap<ConnId, usize>,
    slots: Vec<Option<Conn<T>>>,
    free: Vec<usize>,
}

impl<T: Trackable> View for ConnTable<T> {
    type V = Map<ConnId, Conn<T>>;

    closed spec fn view(&self) -> Map<ConnId, Conn<T>> {
        Map::new(
            |id: ConnId| self.present(id),
            |id: ConnId| self.slots@[slots_of(self.index)[id] as int]->0,
        )
    }
}

impl<T: Trackable> ConnTable<T> {
    spec fn present(&self, id: ConnId) -> bool {
        slots_of(self.index).contains_key(id)
    }

    /// Every identifier has an occupied slot of its own, and no free slot is in use.
    pub closed spec fn wf(&self) -> bool {
        let m = slots_of(self.index);
        &&& forall|id: ConnId| #[trigger]
            m.contains_key(id) ==> m[id] < self.slots@.len() && self.slots@[m[id] as int] is Some
        &&& forall|a: ConnId, b: ConnId| #[trigger]
            m.contains_key(a) && #[trigger] m.contains_key(b) && a != b ==> m[a] != m[b]
        &&& forall|i: int| 0 <= i < self.free@.len() ==> #[trigger] self.free@[i] < self.slots@.len()
        &&& forall|i: int, id: ConnId|
            0 <= i < self.free@.len() && #[trigger] m.contains_key(id) ==> m[id] != #[trigger] self.free@[i]
        &&& forall|i: int, j: int|
            0 <= i < j < self.free@.len() ==> #[trigger] self.free@[i] != #[trigger] self.free@[j]
    }

    pub fn new() -> (t: ConnTable<T>)
        ensures
            t.wf(),
            t@ == Map::<ConnId, Conn<T>>::empty(),
    {
        let t = ConnTable { index: new_map(), slots: Vec::new(), free: Vec::new() };
        assert(t@ =~= Map::<ConnId, Conn<T>>::empty());
        t
    }

    /// Returns `true` if a connection has the identifier.
    pub fn contains(&self, id: ConnId) -> (b: bool)
        ensures
            b == self@.contains_key(id),
    {
        map_get(&self.index, id).is_some()
    }

    /// Adds a connection, in place of the one that had the identifier before.
    pub fn insert(&mut self, id: ConnId, conn: Conn<T>)
        requires
            old(self).wf(),
        ensures
            final(self).wf(),
            final(self)@ == old(self)@.insert(id, conn),
    {
        let slot: usize = match map_get(&self.index, id) {
            Some(slot) => {
                self.slots[slot] = Some(conn);
                slot
            },
            None => match self.free.pop() {
                Some(slot) => {
                    self.slots[slot] = Some(conn);
                    slot
                },
                None => {
                    self.slots.push(Some(conn));
                    self.slots.len() - 1
                },
            },
        };
        map_insert(&mut self.index, id, slot);
        assert(self@ =~= old(self)@.insert(id, conn));
    }

    /// Removes a connection and hands it out.
    pub fn remove(&mut self, id: ConnId) -> (r: Option<Conn<T>>)
        requires
            old(self).wf(),
        ensures
            final(self).wf(),
            match r {
                Some(conn) => old(self)@.contains_key(id) && conn == old(self)@[id] && final(self)@ == old(self)@.remove(id),
                None => !old(self)@.contains_key(id) && final(self)@ == old(self)@,
            },
    {
        match map_get(&self.index, id) {
            Some(slot) => {
                let mut conn: Option<Conn<T>> = None;
                core::mem::swap(&mut self.slots[slot], &mut conn);
                map_remove(&mut self.index, id);
                self.free.push(slot);
                assert(self@ =~= old(self)@.remove(id));
                conn
            },
            None => None,
        }
    }

    /// A connection of the table.
    pub fn get(&self, id: ConnId) -> (r: Option<&Conn<T>>)
        requires
            self.wf(),
        ensures
            match r {
                Some(conn) => self@.contains_key(id) && *conn == self@[id],
                None => !self@.contains_key(id),
            },
    {
        match map_get(&self.index, id) {
            Some(slot) => self.slots[slot].as_ref(),
            None => None,
        }
    }

    /// A connection of the table, to be changed in place.
    pub fn get_mut(&mut self, id: ConnId) -> (r: Option<&mut Conn<T>>)
        requires
            old(self).wf(),
        ensures
            final(self).wf(),
            match r {
                Some(conn) => {
                    &&& old(self)@.contains_key(id)
                    &&& *conn == old(self)@[id]
                    &&& final(self)@ == old(self)@.insert(id, *final(conn))
                },
                None => !old(self)@.contains_key(id) && final(self)@ == old(self)@,
            },
    {
        match map_get(&self.index, id) {
            Some(slot) => {
                proof {
                    let before = *self;
                    assert forall|t: ConnTable<T>, c: Conn<T>|
                        t.index == before.index && t.free == before.free && t.slots@
                            == before.slots@.update(slot as int, Some(c)) implies #[trigger] t@
                        == #[trigger] before@.insert(id, c) && t.wf() by {
                        assert(t@ =~= before@.insert(id, c));
                    }
                }
                self.slots[slot].as_mut()
            },
            None => None,
        }
    }
}

} // verus!
