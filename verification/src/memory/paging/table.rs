//! A table of one level of the hierarchy, and the descent from a table to
//! the tables below it.

use crate::memory::paging::entry::{
    lemma_flag_bits, lemma_slot_bits, slot_bits, slot_huge, slot_leads_to_table, slot_present, Entry, EntryFlags, HUGE_PAGE, PRESENT, SLOT_FRAME_LIMIT, WRITABLE,
};
use crate::memory::paging::ENTRY_COUNT;
use crate::memory::FrameAllocator;
use std::marker::PhantomData;
use vstd::prelude::*;

verus! {

/// The address at which the top table is seen through its own last slot.
pub const P4: u64 = 0xffff_ffff_ffff_f000;

/// A level of the hierarchy.
pub trait TableLevel {
    /// What hangs below a table of this level: tables of the next level,
    /// or nothing at the bottom.
    type Below;

    /// The level's number, 4 at the top and 1 at the bottom.
    const LEVEL: u8;
}

/// The top level.
pub enum Level4 {
    Tag,
}

/// The third level.
pub enum Level3 {
    Tag,
}

/// The second level.
pub enum Level2 {
    Tag,
}

/// The bottom level, whose slots map pages.
pub enum Level1 {
    Tag,
}

/// What hangs below a table of the bottom level.
pub enum NoTable {
    Nothing,
}

impl TableLevel for Level4 {
    type Below = Table<Level3>;

    const LEVEL: u8 = 4;
}

impl TableLevel for Level3 {
    type Below = Table<Level2>;

    const LEVEL: u8 = 3;
}

impl TableLevel for Level2 {
    type Below = Table<Level1>;

    const LEVEL: u8 = 2;
}

impl TableLevel for Level1 {
    type Below = NoTable;

    const LEVEL: u8 = 1;
}

/// A level that has a level below it.
pub trait HeirarchicalLevel: TableLevel {
    type NextLevel: TableLevel;
}

impl HeirarchicalLevel for Level4 {
    type NextLevel = Level3;
}

impl HeirarchicalLevel for Level3 {
    type NextLevel = Level2;
}

impl HeirarchicalLevel for Level2 {
    type NextLevel = Level1;
}

/// The address of the table that slot `index` of the table at `addr` leads
/// to, as the top table's mapping of itself shows it.
pub open spec fn next_addr(addr: u64, index: int) -> u64 {
    (addr << 9) | ((index as u64) << 12)
}

/// A table of level `L`: its 512 slots, the tables that hang below them,
/// and the address at which the table is seen.
pub struct Table<L: TableLevel> {
    entries: Vec<Entry>,
    tables: Vec<Option<L::Below>>,
    addr: u64,
    level: PhantomData<L>,
}

impl<L: TableLevel> View for Table<L> {
    type V = Seq<u64>;

    /// The bits of the table's slots.
    closed spec fn view(&self) -> Seq<u64> {
        self.entries@.map_values(|entry: Entry| entry@)
    }
}

impl<L: TableLevel> Table<L> {
    /// What hangs below each slot.
    pub closed spec fn below(&self) -> Seq<Option<L::Below>> {
        self.tables@
    }

    /// The address at which the table is seen.
    pub closed spec fn spec_addr(&self) -> u64 {
        self.addr
    }

    /// The table has 512 slots.
    pub open spec fn wf(&self) -> bool {
        &&& self@.len() == ENTRY_COUNT
        &&& self.below().len() == ENTRY_COUNT
    }

    /// Every slot is unused and nothing hangs below the table.
    pub open spec fn is_zero(&self) -> bool {
        &&& self.wf()
        &&& forall|i: int| 0 <= i < ENTRY_COUNT ==> #[trigger] self@[i] == 0
        &&& forall|i: int| 0 <= i < ENTRY_COUNT ==> (#[trigger] self.below()[i]).is_none()
    }

    /// A table of unused slots that is seen at `addr`.
    pub fn new(addr: u64) -> (table: Table<L>)
        ensures
            table.is_zero(),
            table.spec_addr() == addr,
    {
        let mut entries: Vec<Entry> = Vec::new();
        let mut tables: Vec<Option<L::Below>> = Vec::new();
        let mut i: usize = 0;
        while i < ENTRY_COUNT
            invariant
                i <= ENTRY_COUNT,
                entries@.len() == i,
                tables@.len() == i,
                forall|j: int| 0 <= j < i ==> (#[trigger] entries@[j])@ == 0,
                forall|j: int| 0 <= j < i ==> (#[trigger] tables@[j]).is_none(),
            decreases ENTRY_COUNT - i,
        {
            entries.push(Entry::unused());
            tables.push(None);
            i += 1;
        }
        Table { entries, tables, addr, level: PhantomData }
    }

    /// The address at which the table is seen.
    #[verifier::when_used_as_spec(spec_addr)]
    pub fn addr(&self) -> (addr: u64)
        ensures
            addr == self.spec_addr(),
    {
        self.addr
    }

    /// The slot at `index`.
    pub fn index(&self, index: usize) -> (entry: &Entry)
        requires
            self.wf(),
            index < ENTRY_COUNT,
        ensures
            entry@ == self@[index as int],
    {
        &self.entries[index]
    }

    /// The slot at `index`, to be changed.
    pub fn index_mut(&mut self, index: usize) -> (entry: &mut Entry)
        requires
            old(self).wf(),
            index < ENTRY_COUNT,
        ensures
            entry@ == old(self)@[index as int],
            final(self)@ == old(self)@.update(index as int, final(entry)@),
            final(self).below() == old(self).below(),
            final(self).spec_addr() == old(self).spec_addr(),
    {
        &mut self.entries[index]
    }

    /// Empties every slot, and with it drops what hung below the table.
    pub fn zero(&mut self)
        requires
            old(self).wf(),
        ensures
            final(self).is_zero(),
            final(self).spec_addr() == old(self).spec_addr(),
    {
        let mut i: usize = 0;
        while i < ENTRY_COUNT
            invariant
                i <= ENTRY_COUNT,
                self.wf(),
                self.spec_addr() == old(self).spec_addr(),
                forall|j: int| 0 <= j < i ==> #[trigger] self@[j] == 0,
                forall|j: int| 0 <= j < i ==> (#[trigger] self.below()[j]).is_none(),
            decreases ENTRY_COUNT - i,
        {
            let ghost before = self@;
            self.entries[i].set_unused();
            self.tables[i] = None;
            assert forall|j: int| 0 <= j < i + 1 implies #[trigger] self@[j] == 0 by {
                if j < i {
                    assert(before[j] == 0);
                }
            }
            i += 1;
        }
    }
}

impl<L> Table<L> where
    L: HeirarchicalLevel + TableLevel<Below = Table<<L as HeirarchicalLevel>::NextLevel>>,
 {
    /// Below slot `i` hangs a table exactly if the slot leads to one, and
    /// that table is seen at the address that follows from this one's.
    pub open spec fn link_at(&self, i: int) -> bool {
        if slot_leads_to_table(self@[i]) {
            &&& self.below()[i].is_some()
            &&& self.below()[i].unwrap().wf()
            &&& self.below()[i].unwrap().spec_addr() == next_addr(self.spec_addr(), i)
        } else {
            self.below()[i].is_none()
        }
    }

    /// The table has 512 slots, and below each hangs what the slot says.
    pub open spec fn linked(&self) -> bool {
        &&& self.wf()
        &&& forall|i: int| 0 <= i < ENTRY_COUNT ==> #[trigger] self.link_at(i)
    }

    /// `after` is this table once slot `index` is sure to lead to a table.
    /// Where the slot was present, nothing but the table below it has
    /// changed: that table was `next` and is now `next_after`. Where it was
    /// not, the slot now points to `frame` as present and writable, and
    /// `next` is a table of unused slots.
    pub open spec fn leads_on(
        &self,
        after: &Table<L>,
        index: int,
        frame: Option<nat>,
        next: &Table<L::NextLevel>,
        next_after: &Table<L::NextLevel>,
    ) -> bool {
        &&& after.spec_addr() == self.spec_addr()
        &&& after.below() =~= self.below().update(index, Some(*next_after))
        &&& next.wf()
        &&& next.spec_addr() == next_addr(self.spec_addr(), index)
        &&& if slot_present(self@[index]) {
            &&& after@ == self@
            &&& self.below()[index] == Some(*next)
        } else {
            &&& frame.is_some()
            &&& after@ =~= self@.update(index, slot_bits(frame.unwrap(), PRESENT | WRITABLE))
            &&& next.is_zero()
        }
    }

    /// A linked table stays linked where a slot is made to lead to a table
    /// and that table keeps its 512 slots and its address.
    pub proof fn lemma_leads_on_linked(
        &self,
        after: &Table<L>,
        index: int,
        frame: Option<nat>,
        next: &Table<L::NextLevel>,
        next_after: &Table<L::NextLevel>,
    )
        requires
            self.linked(),
            0 <= index < ENTRY_COUNT,
            !slot_huge(self@[index]),
            self.leads_on(after, index, frame, next, next_after),
            frame.is_some() ==> frame.unwrap() < SLOT_FRAME_LIMIT,
            next_after.wf(),
            next_after.spec_addr() == next.spec_addr(),
        ensures
            after.linked(),
            slot_leads_to_table(after@[index]),
    {
        lemma_flag_bits(0);
        if frame.is_some() {
            lemma_slot_bits(frame.unwrap(), PRESENT | WRITABLE);
        }
        assert(self.link_at(index));
        assert forall|i: int| 0 <= i < ENTRY_COUNT implies #[trigger] after.link_at(i) by {
            assert(self.link_at(i));
        }
    }

    /// A table of unused slots with nothing below it is linked.
    pub proof fn lemma_zero_linked(&self)
        requires
            self.is_zero(),
        ensures
            self.linked(),
    {
        lemma_flag_bits(0);
        assert forall|i: int| 0 <= i < ENTRY_COUNT implies #[trigger] self.link_at(i) by {
            assert(self@[i] == 0);
            assert(self.below()[i].is_none());
        }
    }

    /// The address of the table that slot `index` leads to, if it leads to
    /// one.
    pub fn next_table_addr(&self, index: usize) -> (addr: Option<u64>)
        requires
            self.wf(),
            index < ENTRY_COUNT,
        ensures
            addr == if slot_leads_to_table(self@[index as int]) {
                Some(next_addr(self.spec_addr(), index as int))
            } else {
                None
            },
    {
        let entry_flags = self.index(index).flags();
        proof {
            lemma_flag_bits(self@[index as int]);
        }
        if entry_flags.contains(EntryFlags::from_bits_truncate(PRESENT)) && !entry_flags.contains(
            EntryFlags::from_bits_truncate(HUGE_PAGE),
        ) {
            Some((self.addr << 9) | ((index as u64) << 12))
        } else {
            None
        }
    }

    /// The table that slot `index` leads to, if it leads to one.
    pub fn next_table(&self, index: usize) -> (next: Option<&Table<L::NextLevel>>)
        requires
            self.linked(),
            index < ENTRY_COUNT,
        ensures
            match next {
                Some(table) => slot_leads_to_table(self@[index as int]) && self.below()[index as int]
                    == Some(*table),
                None => !slot_leads_to_table(self@[index as int]),
            },
    {
        assert(self.link_at(index as int));
        match self.next_table_addr(index) {
            Some(_) => match &self.tables[index] {
                Some(table) => Some(table),
                None => None,
            },
            None => None,
        }
    }

    /// The table that slot `index` leads to, if it leads to one, to be
    /// changed.
    pub fn next_table_mut(&mut self, index: usize) -> (next: Option<&mut Table<L::NextLevel>>)
        requires
            old(self).linked(),
            index < ENTRY_COUNT,
        ensures
            final(self)@ == old(self)@,
            final(self).spec_addr() == old(self).spec_addr(),
            match next {
                Some(table) => {
                    &&& slot_leads_to_table(old(self)@[index as int])
                    &&& old(self).below()[index as int] == Some(*table)
                    &&& final(self).below() == old(self).below().update(
                        index as int,
                        Some(*final(table)),
                    )
                },
                None => {
                    &&& !slot_leads_to_table(old(self)@[index as int])
                    &&& final(self).below() == old(self).below()
                },
            },
    {
        assert(self.link_at(index as int));
        match self.next_table_addr(index) {
            Some(_) => match &mut self.tables[index] {
                Some(table) => Some(table),
                None => None,
            },
            None => None,
        }
    }

    /// The table that slot `index` leads to. Where the slot is not present,
    /// a frame is taken from `allocator`, the slot is pointed to it as
    /// present and writable, and an empty table is hung below it. The slot
    /// must not be a huge leaf, and the allocator must have a frame left
    /// where one is needed.
    pub fn next_table_create<A>(&mut self, index: usize, allocator: &mut A) -> (next: &mut Table<
        L::NextLevel,
    >) where A: FrameAllocator
        requires
            old(self).linked(),
            index < ENTRY_COUNT,
            !slot_huge(old(self)@[index as int]),
            old(allocator).wf(),
            !slot_present(old(self)@[index as int]) ==> old(allocator).upcoming(0).is_some()
                && old(allocator).upcoming(0).unwrap() < SLOT_FRAME_LIMIT,
        ensures
            old(self).leads_on(
                final(self),
                index as int,
                old(allocator).upcoming(0),
                next,
                final(next),
            ),
            final(allocator).wf(),
            forall|k: nat|
                final(allocator).upcoming(k) == old(allocator).upcoming(
                    if slot_present(old(self)@[index as int]) {
                        k
                    } else {
                        k + 1
                    },
                ),
    {
        assert(self.link_at(index as int));
        if self.next_table_addr(index).is_none() {
            let frame = allocator.allocate_frame().unwrap();
            proof {
                lemma_flag_bits(0);
            }
            self.entries[index].set(frame, EntryFlags::from_bits_truncate(PRESENT | WRITABLE));
            let addr: u64 = (self.addr << 9) | ((index as u64) << 12);
            self.tables[index] = Some(Table::new(addr));
        }
        match &mut self.tables[index] {
            Some(table) => table,
            None => vstd::pervasive::unreached(),
        }
    }
}

} // verus!
