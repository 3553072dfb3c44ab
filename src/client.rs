//! The upstream side: the slot table that matches replies arriving on one
//! shared socket to the queries waiting for them, and the per-datagram
//! decisions of the receive loop. Sending, receiving and waiting are done
//! by the caller.
use vstd::prelude::*;
use std::collections::HashMap;
use crate::protocol::{Header, Message, MessageModel};
use crate::decode::{DecodeError, message_of};
use crate::encode::{EncodeError, message_wire};

verus! {

broadcast use vstd::std_specs::hash::group_hash_axioms;

/// Why a slot could not be had.
#[derive(Clone, Copy, Debug, PartialEq, Eq, Structural)]
pub enum SlotError {
    /// All 65536 transaction ids are in flight.
    OutOfSlots,
}

/// The in-flight upstream queries: for each transaction id used on the
/// wire, the id the client chose and the handle that the reply goes to.
pub struct Slots<T> {
    pending: HashMap<u16, (u16, T)>,
    counter: u16,
}

/// The id after `c`, wrapping from 65535 to 0.
pub open spec fn next_id(c: u16) -> u16 {
    if c == 65535 {
        0
    } else {
        (c + 1) as u16
    }
}

/// The id `k + 1` steps after `c`, wrapping.
pub open spec fn id_after(c: u16, k: int) -> u16 {
    ((c + 1 + k) % 65536) as u16
}

impl<T> Slots<T> {
    /// The pending slots by wire id.
    pub closed spec fn pending(&self) -> Map<u16, (u16, T)> {
        self.pending@
    }

    /// The last id handed out.
    pub closed spec fn counter(&self) -> u16 {
        self.counter
    }

    /// An empty table.
    pub fn new() -> (r: Slots<T>)
        ensures
            r.pending() == Map::<u16, (u16, T)>::empty(),
            r.counter() == 0,
    {
        Slots { pending: HashMap::new(), counter: 0 }
    }

    /// Whether `id` is in flight.
    pub fn in_use(&self, id: u16) -> (r: bool)
        ensures
            r == self.pending().contains_key(id),
    {
        self.pending.contains_key(&id)
    }

    /// Takes the first free id after the last one handed out (wrapping) and
    /// records `orig_id` and `reply` under it. Fails only when every id is
    /// in flight.
    pub fn create(&mut self, orig_id: u16, reply: T) -> (r: Result<u16, SlotError>)
        ensures
            r is Err <==> forall|id: u16| old(self).pending().contains_key(id),
            match r {
                Ok(id) => {
                    &&& !old(self).pending().contains_key(id)
                    &&& final(self).pending() == old(self).pending().insert(id, (orig_id, reply))
                    &&& final(self).counter() == id
                    &&& exists|k: int|
                        0 <= k < 65536 && id == id_after(old(self).counter(), k) && forall|j: int|
                            0 <= j < k ==> old(self).pending().contains_key(
                                #[trigger] id_after(old(self).counter(), j),
                            )
                },
                Err(_) => final(self).pending() == old(self).pending(),
            },
    {
        let start = self.counter;
        let mut c: u16 = self.counter;
        let mut step: u32 = 0;
        while step < 65536
            invariant
                self.pending@ == old(self).pending@,
                self.counter == start,
                start == old(self).counter,
                step <= 65536,
                step < 65536 ==> c == if step == 0 {
                    start
                } else {
                    id_after(start, step - 1)
                },
                forall|j: int| 0 <= j < step ==> self.pending@.contains_key(#[trigger] id_after(start, j)),
            decreases 65536 - step,
        {
            c = if c == 65535 {
                0
            } else {
                c + 1
            };
            assert(c == id_after(start, step as int));
            if !self.pending.contains_key(&c) {
                let ghost k = step as int;
                assert(!old(self).pending().contains_key(c));
                assert(start == old(self).counter());
                assert(0 <= k < 65536 && c == id_after(old(self).counter(), k) && forall|j: int|
                    0 <= j < k ==> old(self).pending().contains_key(
                        #[trigger] id_after(old(self).counter(), j),
                    ));
                self.pending.insert(c, (orig_id, reply));
                self.counter = c;
                return Ok(c);
            }
            step = step + 1;
        }
        assert forall|id: u16| old(self).pending().contains_key(id) by {
            let k = ((id as int - start as int - 1) % 65536 + 65536) % 65536;
            assert(id_after(start, k) == id);
        }
        Err(SlotError::OutOfSlots)
    }

    /// What the slot `id` holds, if it is pending.
    pub fn get(&self, id: u16) -> (r: Option<&(u16, T)>)
        ensures
            match r {
                Some(v) => self.pending().contains_key(id) && self.pending()[id] == *v,
                None => !self.pending().contains_key(id),
            },
    {
        self.pending.get(&id)
    }

    /// Frees the slot `id`, handing back what it held.
    pub fn remove(&mut self, id: u16) -> (r: Option<(u16, T)>)
        ensures
            final(self).pending() == old(self).pending().remove(id),
            final(self).counter() == old(self).counter(),
            match r {
                Some(v) => old(self).pending().contains_key(id) && old(self).pending()[id] == v,
                None => !old(self).pending().contains_key(id),
            },
    {
        self.pending.remove(&id)
    }
}


/// The message with its transaction id replaced.
pub open spec fn with_id(m: MessageModel, id: u16) -> MessageModel {
    MessageModel { header: Header { id, ..m.header }, ..m }
}

/// What the receive loop does with one datagram.
pub enum Delivery<T> {
    /// It answers a pending query: hand the message, carrying the client's
    /// own id again, to this reply handle.
    Delivered(T, Message),
    /// No pending query has its id (it timed out, or is a duplicate):
    /// drop it.
    Orphan(Message),
    /// It is not a readable message: drop it.
    Malformed(DecodeError),
}

impl<T> Slots<T> {
    /// Reads a datagram from upstream and, when its id is pending, frees
    /// that slot and restores the client's id on the message.
    pub fn deliver(&mut self, datagram: &[u8]) -> (r: Delivery<T>)
        ensures
            final(self).counter() == old(self).counter(),
            match message_of(datagram@) {
                Err(e) => r == Delivery::<T>::Malformed(e) && final(self).pending() == old(self).pending(),
                Ok(m) => if old(self).pending().contains_key(m.header.id) {
                    &&& r matches Delivery::Delivered(t, msg) && t == old(self).pending()[m.header.id].1
                        && msg@ == with_id(m, old(self).pending()[m.header.id].0)
                    &&& final(self).pending() == old(self).pending().remove(m.header.id)
                } else {
                    r matches Delivery::Orphan(msg) && msg@ == m && final(self).pending() == old(
                        self,
                    ).pending()
                },
            },
    {
        match Message::from_bytes(datagram) {
            Err(e) => Delivery::Malformed(e),
            Ok(msg) => match self.remove(msg.header.id) {
                None => Delivery::Orphan(msg),
                Some((orig_id, reply)) => {
                    let mut msg = msg;
                    msg.header.id = orig_id;
                    Delivery::Delivered(reply, msg)
                },
            },
        }
    }
}

/// The datagram to send upstream for `msg` under the slot id `slot_id`:
/// the message as it stands but for its transaction id.
pub fn prepare_upstream(msg: &Message, slot_id: u16) -> (r: Result<Vec<u8>, EncodeError>)
    ensures
        match message_wire(with_id(msg@, slot_id)) {
            Ok(b) => r matches Ok(v) && v@ == b,
            Err(e) => r == Err::<Vec<u8>, EncodeError>(e),
        },
{
    let mut out = msg.duplicate();
    out.header.id = slot_id;
    assert(out@ == with_id(msg@, slot_id));
    out.to_udp_packet()
}

/// Slot exclusion: while a slot is pending, no other query is handed its
/// id. An id that `create` hands out was free, and once it is recorded a
/// later `create` can only pick a free id, so the two differ.
pub proof fn lemma_slot_exclusion<T>(pending: Map<u16, (u16, T)>, id1: u16, v1: (u16, T), id2: u16)
    requires
        !pending.contains_key(id1),
        !pending.insert(id1, v1).contains_key(id2),
    ensures
        id1 != id2,
{
}

/// Freeing a slot makes its id eligible again: it is no longer pending, so
/// the table is not full and `create` succeeds.
pub proof fn lemma_freed_slot_reusable<T>(pending: Map<u16, (u16, T)>, id: u16)
    ensures
        !pending.remove(id).contains_key(id),
        !(forall|x: u16| pending.remove(id).contains_key(x)),
{
}

/// Cleanup: a slot created and then freed (after a reply, a timeout or a
/// failed send) leaves the table exactly as it was.
pub proof fn lemma_create_then_remove<T>(pending: Map<u16, (u16, T)>, id: u16, v: (u16, T))
    requires
        !pending.contains_key(id),
    ensures
        pending.insert(id, v).remove(id) == pending,
{
    assert(pending.insert(id, v).remove(id) =~= pending);
}

} // verus!
