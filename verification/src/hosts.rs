//! The host table a multi-host device exposes.
//!
//! Easy-Switch addresses hosts by a 0-based slot index while the keys printed
//! on the device count from one. Both numbers appear here so a caller never has
//! to guess which convention a field follows.

use vstd::prelude::*;

verus! {

/// One host slot as the device reports it.
#[derive(Debug, PartialEq, Eq)]
pub struct HostSlot {
    /// 0-based slot index, the one `CHANGE_HOST` addresses.
    pub index: u8,
    /// Whether the slot holds a pairing. An empty slot is still listed: the
    /// user can pair it later, and hiding it would renumber the ones after it.
    pub paired: bool,
    /// Friendly name the host wrote into the device, when it stored one.
    pub name: Option<String>,
}

/// What a [`HostSlot`] holds.
#[verifier::ext_equal]
pub struct SlotRecord {
    pub index: u8,
    pub paired: bool,
    pub name: Option<Seq<char>>,
}

impl View for HostSlot {
    type V = SlotRecord;

    open spec fn view(&self) -> SlotRecord {
        SlotRecord {
            index: self.index,
            paired: self.paired,
            name: match self.name {
                Some(name) => Some(name@),
                None => None,
            },
        }
    }
}

impl Clone for HostSlot {
    fn clone(&self) -> (copy: Self)
        ensures
            copy@ == self@,
            copy.index == self.index,
            copy.paired == self.paired,
            copy.name is Some <==> self.name is Some,
            copy.name is Some ==> copy.name->0@ == self.name->0@,
    {
        HostSlot {
            index: self.index,
            paired: self.paired,
            name: match &self.name {
                Some(name) => Some(name.clone()),
                None => None,
            },
        }
    }
}

impl HostSlot {
    /// The 1-based Easy-Switch channel printed on the device.
    #[must_use]
    pub fn channel(&self) -> (channel: u8)
        ensures
            channel == if self.index < u8::MAX {
                self.index + 1
            } else {
                u8::MAX as int
            },
    {
        self.index.saturating_add(1)
    }
}

/// A device's host table and the slot it is currently on.
#[derive(Debug, PartialEq, Eq)]
pub struct HostTable {
    /// 0-based slot the device is talking to right now.
    pub current: u8,
    /// Every slot the device exposes, in index order.
    pub slots: Vec<HostSlot>,
}

/// The slots of a table.
pub open spec fn slot_records(slots: Seq<HostSlot>) -> Seq<SlotRecord> {
    Seq::new(slots.len(), |i: int| slots[i]@)
}

impl Clone for HostTable {
    fn clone(&self) -> (copy: Self)
        ensures
            copy.current == self.current,
            slot_records(copy.slots@) == slot_records(self.slots@),
            copy.slots@.len() == self.slots@.len(),
            forall|i: int| 0 <= i < copy.slots@.len() ==> (#[trigger] copy.slots@[i])@
                == self.slots@[i]@,
    {
        let mut slots: Vec<HostSlot> = Vec::new();
        let mut index: usize = 0;
        while index < self.slots.len()
            invariant
                index <= self.slots@.len(),
                slots@.len() == index,
                forall|i: int| 0 <= i < index ==> (#[trigger] slots@[i])@ == self.slots@[i]@,
            decreases self.slots@.len() - index,
        {
            slots.push(self.slots[index].clone());
            index = index + 1;
        }
        assert(slot_records(slots@) =~= slot_records(self.slots@));
        HostTable { current: self.current, slots }
    }
}

/// A record tells everything of a slot: its index, whether it is paired, and
/// the characters of its name.
pub proof fn law_a_record_tells_everything_of_a_slot(a: HostSlot, b: HostSlot)
    ensures
        a@ == b@ <==> {
            &&& a.index == b.index
            &&& a.paired == b.paired
            &&& a.name is Some <==> b.name is Some
            &&& a.name is Some ==> a.name->0@ == b.name->0@
        },
        a@.index == a.index,
        a@.paired == a.paired,
        a@.name is Some <==> a.name is Some,
        a.name is Some ==> a@.name->0 == a.name->0@,
{
}

impl HostTable {
    /// Whether the slot at `position` is the first that carries the current
    /// index.
    pub open spec fn is_current_at(&self, position: int) -> bool {
        &&& 0 <= position < self.slots@.len()
        &&& self.slots@[position].index == self.current
        &&& forall|i: int| 0 <= i < position ==> (#[trigger] self.slots@[i]).index != self.current
    }

    /// The slot the device is currently on, when the table lists it. It is
    /// found by its index: a device may report slots out of order.
    #[must_use]
    pub fn current_slot(&self) -> (slot: Option<&HostSlot>)
        ensures
            match slot {
                Some(slot) => exists|position: int| #[trigger]
                    self.is_current_at(position) && *slot == self.slots@[position],
                None => forall|i: int|
                    0 <= i < self.slots@.len() ==> (#[trigger] self.slots@[i]).index
                        != self.current,
            },
    {
        let mut position: usize = 0;
        while position < self.slots.len()
            invariant
                position <= self.slots@.len(),
                forall|i: int|
                    0 <= i < position ==> (#[trigger] self.slots@[i]).index != self.current,
            decreases self.slots@.len() - position,
        {
            if self.slots[position].index == self.current {
                assert(self.is_current_at(position as int));
                return Some(&self.slots[position]);
            }
            position = position + 1;
        }
        None
    }
}

} // verus!
