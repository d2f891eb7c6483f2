//! Reading a device's host table, and keeping it published.
//!
//! Moving a device between slots says nothing about them. The table is what
//! turns a slot number into a machine: the name a slot holds is both how a
//! peer is addressed and how this host knows which slot it occupies. Reading
//! it costs device round trips, so it is read when the links change rather
//! than on every switch.

use crate::hosts;
use crate::hosts::{HostSlot, HostTable, SlotRecord};
use crate::link::{DeviceRoute, HostSwitchLink};
use vstd::prelude::*;

verus! {

/// What the device says of one slot.
#[derive(Debug, PartialEq, Eq)]
pub struct SlotReading {
    /// Whether the slot holds no pairing.
    pub empty: bool,
    /// The name stored for it, if one could be read.
    pub name: Option<String>,
}

/// The slot at `index`, from what could be read of it. One that could not be
/// read still appears, just without a name: a missing label is no reason to
/// hide a slot the user can switch to.
pub open spec fn slot_record(index: u8, reading: Option<SlotReading>) -> SlotRecord {
    match reading {
        Some(reading) => SlotRecord {
            index,
            paired: !reading.empty,
            name: match reading.name {
                Some(name) => Some(name@),
                None => None,
            },
        },
        None => SlotRecord { index, paired: false, name: None },
    }
}

/// One slot, degrading to "present but unnamed" on any read failure.
#[must_use]
pub fn slot_from(index: u8, reading: Option<SlotReading>) -> (slot: HostSlot)
    ensures
        slot@ == slot_record(index, reading),
        slot.index == index,
        slot.paired <==> reading is Some && !reading->0.empty,
        slot.name is Some <==> reading is Some && reading->0.name is Some,
        slot.name is Some ==> slot.name->0@ == reading->0.name->0@,
{
    match reading {
        Some(reading) => HostSlot { index, paired: !reading.empty, name: reading.name },
        None => HostSlot { index, paired: false, name: None },
    }
}

/// A host table being read, one slot after the other.
#[derive(Debug)]
pub struct TableReader {
    host_count: u8,
    current: u8,
    slots: Vec<HostSlot>,
}

impl TableReader {
    /// How many slots the device exposes.
    pub closed spec fn host_count(self) -> u8 {
        self.host_count
    }

    /// The slot the device is taken to be on.
    pub closed spec fn current(self) -> u8 {
        self.current
    }

    /// The slots read so far.
    pub closed spec fn records(self) -> Seq<SlotRecord> {
        hosts::slot_records(self.slots@)
    }

    #[verifier::type_invariant]
    spec fn lists_in_order(self) -> bool {
        &&& self.slots@.len() <= self.host_count
        &&& forall|i: int| 0 <= i < self.slots@.len() ==> (#[trigger] self.slots@[i]).index == i
    }

    /// Start on a table of `host_count` slots.
    ///
    /// A device may name "wherever it is" in place of a slot. Falling back to
    /// the first slot keeps a table renderable; nothing here writes a host, so
    /// a wrong guess only mislabels which entry is highlighted.
    #[must_use]
    pub fn start(host_count: u8, current: Option<u8>) -> (reader: Self)
        ensures
            reader.host_count() == host_count,
            reader.current() == match current {
                Some(slot) => slot,
                None => 0,
            },
            reader.records() == Seq::<SlotRecord>::empty(),
    {
        let current: u8 = match current {
            Some(slot) => slot,
            None => 0,
        };
        let reader: TableReader = TableReader { host_count, current, slots: Vec::new() };
        assert(reader.records() =~= Seq::empty());
        reader
    }

    /// The slot to read next, or `None` once every slot was read.
    #[must_use]
    pub fn next_slot(&self) -> (index: Option<u8>)
        ensures
            index == if self.records().len() < self.host_count() {
                Some(self.records().len() as u8)
            } else {
                None
            },
    {
        proof {
            use_type_invariant(self);
        }
        if self.slots.len() < self.host_count as usize {
            Some(self.slots.len() as u8)
        } else {
            None
        }
    }

    /// Take what could be read of the slot that was asked for.
    #[must_use]
    pub fn with_slot(self, reading: Option<SlotReading>) -> (reader: Self)
        requires
            self.records().len() < self.host_count(),
        ensures
            reader.host_count() == self.host_count(),
            reader.current() == self.current(),
            reader.records() == self.records().push(
                slot_record(self.records().len() as u8, reading),
            ),
    {
        proof {
            use_type_invariant(&self);
        }
        let ghost before = self.records();
        let host_count: u8 = self.host_count;
        let current: u8 = self.current;
        let mut slots: Vec<HostSlot> = self.slots;
        let index: u8 = slots.len() as u8;
        slots.push(slot_from(index, reading));
        let reader: TableReader = TableReader { host_count, current, slots };
        assert(reader.records() =~= before.push(slot_record(index, reading)));
        reader
    }

    /// The table, once every slot was read. It lists each slot at the place
    /// its index names.
    #[must_use]
    pub fn finish(self) -> (table: HostTable)
        requires
            self.records().len() == self.host_count(),
        ensures
            table.current == self.current(),
            hosts::slot_records(table.slots@) == self.records(),
            table.slots@.len() == self.host_count(),
            forall|i: int|
                0 <= i < table.slots@.len() ==> (#[trigger] table.slots@[i])@ == self.records()[i],
            forall|i: int| 0 <= i < table.slots@.len() ==> (#[trigger] table.slots@[i]).index == i,
    {
        proof {
            use_type_invariant(&self);
        }
        HostTable { current: self.current, slots: self.slots }
    }
}

/// A table that lists each slot at the place its index names finds the current
/// slot exactly if it has that many.
pub proof fn law_a_complete_table_lists_the_current_slot(table: HostTable, position: int)
    requires
        forall|i: int| 0 <= i < table.slots@.len() ==> (#[trigger] table.slots@[i]).index == i,
    ensures
        table.is_current_at(position) <==> position == table.current && table.current
            < table.slots@.len(),
{
    if position == table.current && table.current < table.slots@.len() {
        assert(table.slots@[position].index == position);
    }
}

/// What came of reading a table.
#[derive(Debug, PartialEq, Eq)]
pub enum TableRead {
    /// The device answered.
    Table(HostTable),
    /// The device keeps no table: a normal answer for a single-host device.
    Unsupported,
    /// The device could not be read.
    Failed,
}

/// What is done with the published table.
#[derive(Debug, PartialEq, Eq)]
pub enum TableUpdate {
    /// Publish this in its place.
    Publish(Option<HostTable>),
    /// Leave what is published.
    Keep,
}

/// The keyboard whose table is read now, if any is.
///
/// A table read is device I/O, so it waits for the same gate every other
/// proactive read does rather than poking a sleeping bus.
#[must_use]
pub fn table_to_read(io_allowed: bool, published: &[HostSwitchLink]) -> (route: Option<
    DeviceRoute,
>)
    ensures
        match route {
            Some(route) => {
                &&& io_allowed
                &&& published@.len() > 0
                &&& route@ == published@[0]@.keyboard
            },
            None => !io_allowed || published@.len() == 0,
        },
{
    if io_allowed && published.len() > 0 {
        Some(published[0].keyboard.clone())
    } else {
        None
    }
}

/// What is done with what came of a read.
///
/// A device without a table is not a failure; publishing `None` keeps callers
/// from waiting on a table that will never arrive.
#[must_use]
pub fn table_update(read: TableRead) -> (update: TableUpdate)
    ensures
        update == match read {
            TableRead::Table(table) => TableUpdate::Publish(Some(table)),
            TableRead::Unsupported => TableUpdate::Publish(None),
            TableRead::Failed => TableUpdate::Keep,
        },
{
    match read {
        TableRead::Table(table) => TableUpdate::Publish(Some(table)),
        TableRead::Unsupported => TableUpdate::Publish(None),
        TableRead::Failed => TableUpdate::Keep,
    }
}

} // verus!
