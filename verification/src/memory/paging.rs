//! Pages of virtual memory and the four-level table that maps them to
//! frames.

use crate::memory::paging::entry::{
    lemma_flag_bits, slot_bits, slot_frame, slot_huge, slot_leads_to_table, slot_present, Entry,
    EntryFlags, HUGE_PAGE, SLOT_FRAME_LIMIT,
};
use crate::memory::paging::hierarchy::{zero_table, Hierarchy};
use crate::memory::paging::table::{Level1, Level2, Level3, Level4, Table, P4};
use crate::memory::{can_supply, upcoming_frames, Frame, FrameAllocator, PAGE_SIZE};
use vstd::prelude::*;

pub mod entry;
pub mod hierarchy;
pub mod table;

verus! {

/// The number of entries in a table.
pub const ENTRY_COUNT: usize = 512;

/// An address in physical memory.
pub type PhysicalAddress = u64;

/// An address in virtual memory.
pub type VirtualAddress = u64;

/// The first address above the lower half of the address space.
pub const LOWER_HALF_END: u64 = 0x0000_8000_0000_0000;

/// The first address of the upper half of the address space.
pub const UPPER_HALF_START: u64 = 0xffff_8000_0000_0000;

/// The processor accepts `address`: it lies in the lower or in the upper
/// half of the address space, not in the gap between them.
pub open spec fn is_canonical(address: u64) -> bool {
    address < LOWER_HALF_END || address >= UPPER_HALF_START
}

/// Whether the processor accepts `address`.
pub fn is_canonical_address(address: VirtualAddress) -> (canonical: bool)
    ensures
        canonical == is_canonical(address),
{
    address < LOWER_HALF_END || address >= UPPER_HALF_START
}

/// The slot of the top table that the page `page` goes through.
pub open spec fn p4_index_of(page: nat) -> int {
    (((page as u64) >> 27) & 0o777) as int
}

/// The slot of the third-level table that the page `page` goes through.
pub open spec fn p3_index_of(page: nat) -> int {
    (((page as u64) >> 18) & 0o777) as int
}

/// The slot of the second-level table that the page `page` goes through.
pub open spec fn p2_index_of(page: nat) -> int {
    (((page as u64) >> 9) & 0o777) as int
}

/// The slot of the bottom table that maps the page `page`.
pub open spec fn p1_index_of(page: nat) -> int {
    (((page as u64) >> 0) & 0o777) as int
}

/// Each of a page's four indices names a slot of a table.
pub proof fn lemma_indices_in_range(page: nat)
    ensures
        0 <= p4_index_of(page) < ENTRY_COUNT,
        0 <= p3_index_of(page) < ENTRY_COUNT,
        0 <= p2_index_of(page) < ENTRY_COUNT,
        0 <= p1_index_of(page) < ENTRY_COUNT,
{
    let n: u64 = page as u64;
    assert((n >> 27) & 0o777 < 512 && (n >> 18) & 0o777 < 512 && (n >> 9) & 0o777 < 512 && (n
        >> 0) & 0o777 < 512) by (bit_vector);
}

/// A page of virtual memory. Pages are numbered from virtual address 0.
#[derive(Debug, PartialEq, Eq, PartialOrd, Ord)]
pub struct Page {
    number: u64,
}

impl View for Page {
    type V = nat;

    /// The page's number.
    closed spec fn view(&self) -> nat {
        self.number as nat
    }
}

impl Page {
    /// The page's first address is one that the processor accepts.
    #[verifier::type_invariant]
    pub closed spec fn in_range(&self) -> bool {
        self.number < LOWER_HALF_END / 4096 || UPPER_HALF_START / 4096 <= self.number
            <= u64::MAX / 4096
    }

    /// The page that holds the virtual address `address`, which has to be
    /// one that the processor accepts.
    pub fn for_address(address: VirtualAddress) -> (page: Page)
        requires
            is_canonical(address),
        ensures
            page@ == address as nat / 4096,
            page.in_range(),
    {
        Page { number: address / PAGE_SIZE }
    }

    /// The page's number.
    pub fn number(&self) -> (number: u64)
        ensures
            number == self@,
    {
        self.number
    }

    /// The virtual address of the page's first byte.
    pub fn start_address(&self) -> (address: VirtualAddress)
        ensures
            address == self@ * 4096,
            is_canonical(address),
    {
        proof {
            use_type_invariant(self);
        }
        self.number * PAGE_SIZE
    }

    /// The slot of the top table that the page goes through.
    pub fn p4_index(&self) -> (index: usize)
        ensures
            index == p4_index_of(self@),
            index < ENTRY_COUNT,
    {
        proof {
            lemma_indices_in_range(self@);
        }
        ((self.number >> 27) & 0o777) as usize
    }

    /// The slot of the third-level table that the page goes through.
    pub fn p3_index(&self) -> (index: usize)
        ensures
            index == p3_index_of(self@),
            index < ENTRY_COUNT,
    {
        proof {
            lemma_indices_in_range(self@);
        }
        ((self.number >> 18) & 0o777) as usize
    }

    /// The slot of the second-level table that the page goes through.
    pub fn p2_index(&self) -> (index: usize)
        ensures
            index == p2_index_of(self@),
            index < ENTRY_COUNT,
    {
        proof {
            lemma_indices_in_range(self@);
        }
        ((self.number >> 9) & 0o777) as usize
    }

    /// The slot of the bottom table that maps the page.
    pub fn p1_index(&self) -> (index: usize)
        ensures
            index == p1_index_of(self@),
            index < ENTRY_COUNT,
    {
        proof {
            lemma_indices_in_range(self@);
        }
        ((self.number >> 0) & 0o777) as usize
    }
}

/// The frame at `offset` frames into the huge page that `entry` maps, if
/// `entry` is the leaf of a huge page.
fn huge_leaf_frame(entry: &Entry, offset: u64) -> (frame: Option<Frame>)
    requires
        offset < ENTRY_COUNT * ENTRY_COUNT,
    ensures
        match frame {
            Some(f) => slot_present(entry@) && slot_huge(entry@) && f@ == slot_frame(entry@)
                + offset,
            None => !(slot_present(entry@) && slot_huge(entry@)),
        },
{
    proof {
        lemma_flag_bits(entry@);
    }
    match entry.pointed_frame() {
        Some(start) => {
            if entry.flags().contains(EntryFlags::from_bits_truncate(HUGE_PAGE)) {
                Some(Frame::with_number(start.number() + offset))
            } else {
                None
            }
        },
        None => None,
    }
}

/// The tables on the way to a page while the way is made: each as it was
/// found or made, and as it is in the end; the frames that were taken for
/// those that were made; and the bits that the page's slot was given.
struct Way {
    i4: int,
    i3: int,
    i2: int,
    i1: int,
    f4: Option<nat>,
    f3: Option<nat>,
    f2: Option<nat>,
    p3: Table<Level3>,
    p3_after: Table<Level3>,
    p2: Table<Level2>,
    p2_after: Table<Level2>,
    p1: Table<Level1>,
    p1_after: Table<Level1>,
    bits: u64,
}

/// The hierarchy of tables that is in use, owned through its top table.
///
/// Each table owns the tables that its slots lead to, so the hierarchy is a
/// tree. On the machine the last slot of the top table leads back to the
/// top table, and that is how each table comes to be seen at its address;
/// in the tree that slot is one like any other, and whoever writes the
/// tables to memory keeps it for the top table.
pub struct ActivePageTable {
    p4: Table<Level4>,
}

impl View for ActivePageTable {
    type V = Hierarchy;

    /// What the tables hold.
    closed spec fn view(&self) -> Hierarchy {
        Hierarchy {
            p4: self.p4@,
            p3: Map::new(|i: int| self.table3(i).is_some(), |i: int| self.table3(i).unwrap()@),
            p2: Map::new(
                |key: (int, int)| self.table2(key.0, key.1).is_some(),
                |key: (int, int)| self.table2(key.0, key.1).unwrap()@,
            ),
            p1: Map::new(
                |key: (int, int, int)| self.table1(key.0, key.1, key.2).is_some(),
                |key: (int, int, int)| self.table1(key.0, key.1, key.2).unwrap()@,
            ),
        }
    }
}

impl ActivePageTable {
    /// The third-level table below slot `i` of the top table.
    spec fn table3(&self, i: int) -> Option<Table<Level3>> {
        if 0 <= i < ENTRY_COUNT {
            self.p4.below()[i]
        } else {
            None
        }
    }

    /// The second-level table below the slots `i` and `j`.
    spec fn table2(&self, i: int, j: int) -> Option<Table<Level2>> {
        match self.table3(i) {
            Some(table) => if 0 <= j < ENTRY_COUNT {
                table.below()[j]
            } else {
                None
            },
            None => None,
        }
    }

    /// The bottom table below the slots `i`, `j` and `k`.
    spec fn table1(&self, i: int, j: int, k: int) -> Option<Table<Level1>> {
        match self.table2(i, j) {
            Some(table) => if 0 <= k < ENTRY_COUNT {
                table.below()[k]
            } else {
                None
            },
            None => None,
        }
    }

    /// The top table is seen at the address of its own last slot, and
    /// below every slot of every table hangs what the slot says.
    pub closed spec fn wf(&self) -> bool {
        &&& self.p4.linked()
        &&& self.p4.spec_addr() == P4
        &&& forall|i: int|
            (#[trigger] self.table3(i)).is_some() ==> self.table3(i).unwrap().linked()
        &&& forall|i: int, j: int|
            (#[trigger] self.table2(i, j)).is_some() ==> self.table2(i, j).unwrap().linked()
        &&& forall|i: int, j: int, k: int|
            (#[trigger] self.table1(i, j, k)).is_some() ==> self.table1(i, j, k).unwrap().wf()
    }

    /// What a well-formed hierarchy holds is well-formed.
    pub proof fn lemma_view_wf(&self)
        requires
            self.wf(),
        ensures
            self@.wf(),
    {
        let h = self@;
        assert forall|i: int| #[trigger]
            h.p3.dom().contains(i) <==> 0 <= i < ENTRY_COUNT && slot_leads_to_table(h.p4[i]) by {
            if 0 <= i < ENTRY_COUNT {
                assert(self.p4.link_at(i));
            }
        }
        assert forall|i: int| #[trigger] h.p3.dom().contains(i) implies h.p3[i].len()
            == ENTRY_COUNT by {
            assert(self.table3(i).unwrap().linked());
        }
        assert forall|i: int, j: int| #[trigger]
            h.p2.dom().contains((i, j)) <==> h.p3.dom().contains(i) && 0 <= j < ENTRY_COUNT
                && slot_leads_to_table(h.p3[i][j]) by {
            if self.table3(i).is_some() && 0 <= j < ENTRY_COUNT {
                assert(self.table3(i).unwrap().linked());
                assert(self.table3(i).unwrap().link_at(j));
            }
        }
        assert forall|i: int, j: int| #[trigger] h.p2.dom().contains((i, j)) implies h.p2[(
            i,
            j,
        )].len() == ENTRY_COUNT by {
            assert(self.table2(i, j).unwrap().linked());
        }
        assert forall|i: int, j: int, k: int| #[trigger]
            h.p1.dom().contains((i, j, k)) <==> h.p2.dom().contains((i, j)) && 0 <= k < ENTRY_COUNT
                && slot_leads_to_table(h.p2[(i, j)][k]) by {
            if self.table2(i, j).is_some() && 0 <= k < ENTRY_COUNT {
                assert(self.table2(i, j).unwrap().linked());
                assert(self.table2(i, j).unwrap().link_at(k));
            }
        }
        assert forall|i: int, j: int, k: int| #[trigger]
            h.p1.dom().contains((i, j, k)) implies h.p1[(i, j, k)].len() == ENTRY_COUNT by {
            assert(self.table1(i, j, k).unwrap().wf());
        }
    }

    /// The tables below slot `i` of the top table are those of `other`.
    spec fn same_below(&self, other: &ActivePageTable, i: int) -> bool {
        &&& self.table3(i) == other.table3(i)
        &&& forall|j: int| #[trigger] self.table2(i, j) == other.table2(i, j)
        &&& forall|j: int, k: int| #[trigger] self.table1(i, j, k) == other.table1(i, j, k)
    }

    /// `after` is this hierarchy once the way to a page was made and the
    /// page's slot was given the bits `bits`: `way` holds the tables on the
    /// way as they were found or made, and as they are in the end.
    spec fn grown(&self, after: &ActivePageTable, way: Way) -> bool {
        &&& 0 <= way.i4 < ENTRY_COUNT
        &&& 0 <= way.i3 < ENTRY_COUNT
        &&& 0 <= way.i2 < ENTRY_COUNT
        &&& 0 <= way.i1 < ENTRY_COUNT
        &&& self.p4.leads_on(&after.p4, way.i4, way.f4, &way.p3, &way.p3_after)
        &&& way.p3.leads_on(&way.p3_after, way.i3, way.f3, &way.p2, &way.p2_after)
        &&& way.p2.leads_on(&way.p2_after, way.i2, way.f2, &way.p1, &way.p1_after)
        &&& way.p1_after@ == way.p1@.update(way.i1, way.bits)
        &&& way.p1_after.below() == way.p1.below()
        &&& way.p1_after.spec_addr() == way.p1.spec_addr()
        &&& way.f4.is_some() ==> way.f4.unwrap() < SLOT_FRAME_LIMIT
        &&& way.f3.is_some() ==> way.f3.unwrap() < SLOT_FRAME_LIMIT
        &&& way.f2.is_some() ==> way.f2.unwrap() < SLOT_FRAME_LIMIT
        &&& !slot_huge(self.p4@[way.i4])
        &&& !slot_huge(way.p3@[way.i3])
        &&& !slot_huge(way.p2@[way.i2])
    }

    /// The tables on a way that was made were linked when they were found
    /// or made.
    proof fn lemma_way_linked(&self, after: &ActivePageTable, way: Way)
        requires
            self.wf(),
            self.grown(after, way),
        ensures
            way.p3.linked(),
            way.p2.linked(),
            way.p1.wf(),
            slot_present(self.p4@[way.i4]) ==> self.table3(way.i4) == Some(way.p3),
            !slot_present(self.p4@[way.i4]) ==> way.p3.is_zero() && self.table3(way.i4).is_none(),
            slot_present(way.p3@[way.i3]) ==> way.p3.below()[way.i3] == Some(way.p2),
            !slot_present(way.p3@[way.i3]) ==> way.p2.is_zero() && way.p3.below()[way.i3].is_none(),
            slot_present(way.p2@[way.i2]) ==> way.p2.below()[way.i2] == Some(way.p1),
            !slot_present(way.p2@[way.i2]) ==> way.p1.is_zero() && way.p2.below()[way.i2].is_none(),
    {
        lemma_flag_bits(0);
        assert(self.p4.link_at(way.i4));
        if slot_present(self.p4@[way.i4]) {
            assert(self.table3(way.i4) == Some(way.p3));
        } else {
            way.p3.lemma_zero_linked();
        }
        assert(way.p3.link_at(way.i3));
        if slot_present(way.p3@[way.i3]) {
            assert(self.table2(way.i4, way.i3) == Some(way.p2));
        } else {
            way.p2.lemma_zero_linked();
        }
        assert(way.p2.link_at(way.i2));
        if slot_present(way.p2@[way.i2]) {
            assert(self.table1(way.i4, way.i3, way.i2) == Some(way.p1));
        }
    }

    /// A hierarchy stays well-formed where the way to a page is made and
    /// the page's slot is written.
    proof fn lemma_grown_wf(&self, after: &ActivePageTable, way: Way)
        requires
            self.wf(),
            self.grown(after, way),
        ensures
            after.wf(),
            forall|i: int| i != way.i4 ==> #[trigger] after.same_below(self, i),
            after.table3(way.i4) == Some(way.p3_after),
            forall|j: int|
                j != way.i3 ==> #[trigger] after.table2(way.i4, j) == (if 0 <= j < ENTRY_COUNT {
                    way.p3.below()[j]
                } else {
                    None
                }),
            after.table2(way.i4, way.i3) == Some(way.p2_after),
            forall|k: int|
                k != way.i2 ==> #[trigger] after.table1(way.i4, way.i3, k) == (if 0 <= k
                    < ENTRY_COUNT {
                    way.p2.below()[k]
                } else {
                    None
                }),
            after.table1(way.i4, way.i3, way.i2) == Some(way.p1_after),
    {
        self.lemma_way_linked(after, way);
        way.p2.lemma_leads_on_linked(&way.p2_after, way.i2, way.f2, &way.p1, &way.p1_after);
        way.p3.lemma_leads_on_linked(&way.p3_after, way.i3, way.f3, &way.p2, &way.p2_after);
        self.p4.lemma_leads_on_linked(&after.p4, way.i4, way.f4, &way.p3, &way.p3_after);
        assert forall|i: int| i != way.i4 implies #[trigger] after.same_below(self, i) by {
            assert(after.table3(i) == self.table3(i));
            assert forall|j: int| #[trigger] after.table2(i, j) == self.table2(i, j) by {}
            assert forall|j: int, k: int| #[trigger]
                after.table1(i, j, k) == self.table1(i, j, k) by {
                assert(after.table2(i, j) == self.table2(i, j));
            }
        }
        assert(after.table3(way.i4) == Some(way.p3_after));
        assert(after.table2(way.i4, way.i3) == Some(way.p2_after));
        assert(after.table1(way.i4, way.i3, way.i2) == Some(way.p1_after));
        assert forall|i: int| (#[trigger] after.table3(i)).is_some() implies after.table3(
            i,
        ).unwrap().linked() by {
            if i != way.i4 {
                assert(after.same_below(self, i));
            }
        }
        assert forall|i: int, j: int| (#[trigger] after.table2(i, j)).is_some() implies after.table2(
            i,
            j,
        ).unwrap().linked() by {
            if i != way.i4 {
                assert(after.same_below(self, i));
                assert(after.table2(i, j) == self.table2(i, j));
            } else if j != way.i3 {
                if slot_present(self.p4@[way.i4]) {
                    assert(self.table2(i, j) == after.table2(i, j));
                }
            }
        }
        assert forall|i: int, j: int, k: int| (#[trigger] after.table1(i, j, k)).is_some() implies after.table1(
            i,
            j,
            k,
        ).unwrap().wf() by {
            if i != way.i4 {
                assert(after.same_below(self, i));
                assert(after.table1(i, j, k) == self.table1(i, j, k));
            } else if j != way.i3 {
                if slot_present(self.p4@[way.i4]) {
                    assert(self.table2(i, j) == after.table2(i, j));
                    assert(self.table1(i, j, k) == after.table1(i, j, k));
                }
            } else if k != way.i2 {
                if slot_present(self.p4@[way.i4]) && slot_present(way.p3@[way.i3]) {
                    assert(self.table2(i, j) == Some(way.p2));
                    assert(self.table1(i, j, k) == after.table1(i, j, k));
                }
            }
        }
    }

    /// What a hierarchy holds once the way to `page` is made and the
    /// page's slot is written.
    proof fn lemma_grown_view(
        &self,
        after: &ActivePageTable,
        way: Way,
        page: nat,
        frames: Seq<nat>,
    )
        requires
            self.wf(),
            self.grown(after, way),
            way.i4 == p4_index_of(page),
            way.i3 == p3_index_of(page),
            way.i2 == p2_index_of(page),
            way.i1 == p1_index_of(page),
            self@.missing_tables(page) == 3 ==> way.f4 == Some(frames[0]),
            self@.missing_tables(page) >= 2 ==> way.f3 == Some(
                frames[self@.missing_tables(page) - 2],
            ),
            self@.missing_tables(page) >= 1 ==> way.f2 == Some(
                frames[self@.missing_tables(page) - 1],
            ),
        ensures
            after@ == self@.make_way(page, frames).write(page, way.bits),
    {
        self.lemma_way_linked(after, way);
        self.lemma_grown_wf(after, way);
        lemma_flag_bits(0);
        let h = self@;
        let g = after@;
        let e = h.make_way(page, frames).write(page, way.bits);
        let missing = h.missing_tables(page);
        assert(way.p3.is_zero() ==> way.p3@ =~= zero_table());
        assert(way.p2.is_zero() ==> way.p2@ =~= zero_table());
        assert(way.p1.is_zero() ==> way.p1@ =~= zero_table());
        if slot_present(self.p4@[way.i4]) {
            assert(h.slot3(page) == way.p3@[way.i3]);
            if slot_present(way.p3@[way.i3]) {
                assert(self.table2(way.i4, way.i3) == Some(way.p2));
                assert(h.slot2(page) == way.p2@[way.i2]);
                if slot_present(way.p2@[way.i2]) {
                    assert(self.table1(way.i4, way.i3, way.i2) == Some(way.p1));
                }
            }
        }
        assert(g.p4 =~= e.p4);
        assert(g.p3 =~= e.p3) by {
            assert forall|i: int| g.p3.dom().contains(i) <==> e.p3.dom().contains(i) by {
                if i != way.i4 {
                    assert(after.same_below(self, i));
                }
            }
            assert forall|i: int| g.p3.dom().contains(i) implies g.p3[i] == e.p3[i] by {
                if i != way.i4 {
                    assert(after.same_below(self, i));
                } else {
                    assert(g.p3[i] =~= e.p3[i]);
                }
            }
        }
        assert(g.p2 =~= e.p2) by {
            assert forall|key: (int, int)| g.p2.dom().contains(key) <==> e.p2.dom().contains(
                key,
            ) by {
                if key.0 != way.i4 {
                    assert(after.same_below(self, key.0));
                    assert(after.table2(key.0, key.1) == self.table2(key.0, key.1));
                } else if key.1 != way.i3 {
                    assert(after.table2(way.i4, key.1) == self.table2(way.i4, key.1));
                }
            }
            assert forall|key: (int, int)| g.p2.dom().contains(key) implies g.p2[key]
                == e.p2[key] by {
                if key.0 != way.i4 {
                    assert(after.same_below(self, key.0));
                    assert(after.table2(key.0, key.1) == self.table2(key.0, key.1));
                } else if key.1 != way.i3 {
                    assert(after.table2(way.i4, key.1) == self.table2(way.i4, key.1));
                } else {
                    assert(key == (way.i4, way.i3));
                    assert(g.p2[key] =~= e.p2[key]);
                }
            }
        }
        assert(g.p1 =~= e.p1) by {
            assert forall|key: (int, int, int)| g.p1.dom().contains(key) <==> e.p1.dom().contains(
                key,
            ) by {
                if key.0 != way.i4 {
                    assert(after.same_below(self, key.0));
                    assert(after.table1(key.0, key.1, key.2) == self.table1(key.0, key.1, key.2));
                } else if key.1 != way.i3 {
                    assert(after.table2(way.i4, key.1) == self.table2(way.i4, key.1));
                    assert(after.table1(key.0, key.1, key.2) == self.table1(key.0, key.1, key.2));
                } else if key.2 != way.i2 {
                    assert(after.table1(way.i4, way.i3, key.2) == self.table1(
                        way.i4,
                        way.i3,
                        key.2,
                    ));
                }
            }
            assert forall|key: (int, int, int)| g.p1.dom().contains(key) implies g.p1[key]
                == e.p1[key] by {
                if key.0 != way.i4 {
                    assert(after.same_below(self, key.0));
                    assert(after.table1(key.0, key.1, key.2) == self.table1(key.0, key.1, key.2));
                } else if key.1 != way.i3 {
                    assert(after.table2(way.i4, key.1) == self.table2(way.i4, key.1));
                    assert(after.table1(key.0, key.1, key.2) == self.table1(key.0, key.1, key.2));
                } else if key.2 != way.i2 {
                    assert(after.table1(way.i4, way.i3, key.2) == self.table1(
                        way.i4,
                        way.i3,
                        key.2,
                    ));
                } else {
                    assert(key == (way.i4, way.i3, way.i2));
                    assert(g.p1[key] =~= e.p1[key]);
                }
            }
        }
    }

    /// A hierarchy that maps nothing: a top table of unused slots.
    pub fn new() -> (table: ActivePageTable)
        ensures
            table.wf(),
            table@.p4 == crate::memory::paging::hierarchy::zero_table(),
            table@.p3 == Map::<int, Seq<u64>>::empty(),
            table@.p2 == Map::<(int, int), Seq<u64>>::empty(),
            table@.p1 == Map::<(int, int, int), Seq<u64>>::empty(),
    {
        let p4: Table<Level4> = Table::new(P4);
        proof {
            lemma_flag_bits(0);
            assert forall|i: int| 0 <= i < ENTRY_COUNT implies #[trigger] p4.link_at(i) by {
                assert(p4@[i] == 0);
                assert(p4.below()[i].is_none());
            }
        }
        let table = ActivePageTable { p4 };
        proof {
            assert(table@.p4 =~= crate::memory::paging::hierarchy::zero_table());
            assert(table@.p3 =~= Map::<int, Seq<u64>>::empty());
            assert(table@.p2 =~= Map::<(int, int), Seq<u64>>::empty());
            assert(table@.p1 =~= Map::<(int, int, int), Seq<u64>>::empty());
        }
        table
    }

    /// The top table.
    pub closed spec fn top(&self) -> Table<Level4> {
        self.p4
    }

    /// The top table.
    pub fn p4(&self) -> (p4: &Table<Level4>)
        ensures
            *p4 == self.top(),
            p4@ == self@.p4,
    {
        &self.p4
    }

    /// The top table, to be changed. Whoever changes it has to leave each
    /// table with what its slots say.
    pub fn p4_mut(&mut self) -> (p4: &mut Table<Level4>)
        ensures
            *p4 == old(self).top(),
            *final(p4) == final(self).top(),
    {
        &mut self.p4
    }

    /// The number of tables on the way to `page` that do not exist.
    pub fn missing_tables(&self, page: &Page) -> (missing: usize)
        requires
            self.wf(),
        ensures
            missing == self@.missing_tables(page@),
    {
        let i4 = page.p4_index();
        let i3 = page.p3_index();
        let i2 = page.p2_index();
        proof {
            assert(self.table3(i4 as int) == self.p4.below()[i4 as int]);
        }
        match self.p4.next_table(i4) {
            None => 3,
            Some(p3) => {
                proof {
                    assert(self.table3(i4 as int) == Some(*p3));
                    assert(self.table2(i4 as int, i3 as int) == p3.below()[i3 as int]);
                }
                match p3.next_table(i3) {
                    None => 2,
                    Some(p2) => {
                        proof {
                            assert(self.table2(i4 as int, i3 as int) == Some(*p2));
                        }
                        match p2.next_table(i2) {
                            None => 1,
                            Some(_) => 0,
                        }
                    },
                }
            },
        }
    }

    /// Whether `page` can be mapped: no slot on the way to it is a huge
    /// leaf, and its own slot is unused or is yet to be made.
    pub fn is_free(&self, page: &Page) -> (free: bool)
        requires
            self.wf(),
        ensures
            free == self@.is_free(page@),
    {
        let i4 = page.p4_index();
        let i3 = page.p3_index();
        let i2 = page.p2_index();
        let i1 = page.p1_index();
        proof {
            assert(self.table3(i4 as int) == self.p4.below()[i4 as int]);
        }
        if self.p4.index(i4).is_huge() {
            return false;
        }
        let p3 = match self.p4.next_table(i4) {
            Some(p3) => p3,
            None => {
                return true;
            },
        };
        proof {
            assert(self.table3(i4 as int) == Some(*p3));
            assert(self.table2(i4 as int, i3 as int) == p3.below()[i3 as int]);
        }
        if p3.index(i3).is_huge() {
            return false;
        }
        let p2 = match p3.next_table(i3) {
            Some(p2) => p2,
            None => {
                return true;
            },
        };
        proof {
            assert(self.table2(i4 as int, i3 as int) == Some(*p2));
            assert(self.table1(i4 as int, i3 as int, i2 as int) == p2.below()[i2 as int]);
        }
        if p2.index(i2).is_huge() {
            return false;
        }
        match p2.next_table(i2) {
            Some(p1) => {
                proof {
                    assert(self.table1(i4 as int, i3 as int, i2 as int) == Some(*p1));
                }
                p1.index(i1).is_unused()
            },
            None => true,
        }
    }

    /// Whether `page` is mapped by a slot of the bottom level.
    pub fn is_mapped_by_page(&self, page: &Page) -> (mapped: bool)
        requires
            self.wf(),
        ensures
            mapped == self@.is_mapped_by_page(page@),
    {
        let i4 = page.p4_index();
        let i3 = page.p3_index();
        let i2 = page.p2_index();
        let i1 = page.p1_index();
        proof {
            assert(self.table3(i4 as int) == self.p4.below()[i4 as int]);
        }
        let p3 = match self.p4.next_table(i4) {
            Some(p3) => p3,
            None => {
                return false;
            },
        };
        proof {
            assert(self.table3(i4 as int) == Some(*p3));
            assert(self.table2(i4 as int, i3 as int) == p3.below()[i3 as int]);
        }
        let p2 = match p3.next_table(i3) {
            Some(p2) => p2,
            None => {
                return false;
            },
        };
        proof {
            assert(self.table2(i4 as int, i3 as int) == Some(*p2));
            assert(self.table1(i4 as int, i3 as int, i2 as int) == p2.below()[i2 as int]);
        }
        match p2.next_table(i2) {
            Some(p1) => {
                proof {
                    assert(self.table1(i4 as int, i3 as int, i2 as int) == Some(*p1));
                }
                p1.index(i1).is_present()
            },
            None => false,
        }
    }

    /// Whether a huge leaf on the way to `page`, if there is one, starts
    /// at a frame that is aligned to its size.
    pub fn huge_leaf_aligned(&self, page: &Page) -> (aligned: bool)
        requires
            self.wf(),
        ensures
            aligned == self@.huge_leaf_aligned(page@),
    {
        let i4 = page.p4_index();
        let i3 = page.p3_index();
        let i2 = page.p2_index();
        proof {
            assert(self.table3(i4 as int) == self.p4.below()[i4 as int]);
        }
        let p3 = match self.p4.next_table(i4) {
            Some(p3) => p3,
            None => {
                return true;
            },
        };
        proof {
            assert(self.table3(i4 as int) == Some(*p3));
            assert(self.table2(i4 as int, i3 as int) == p3.below()[i3 as int]);
        }
        match p3.next_table(i3) {
            Some(p2) => {
                proof {
                    assert(self.table2(i4 as int, i3 as int) == Some(*p2));
                }
                let entry = p2.index(i2);
                match entry.pointed_frame() {
                    Some(frame) => !entry.is_huge() || frame.number() % 512 == 0,
                    None => true,
                }
            },
            None => {
                match p3.index(i3).pointed_frame() {
                    Some(frame) => frame.number() % (512 * 512) == 0,
                    None => true,
                }
            },
        }
    }

    /// The frame that `page` is mapped to, if it is mapped. A huge leaf on
    /// the way must start at a frame that is aligned to its size.
    pub fn translate_page(&self, page: Page) -> (frame: Option<Frame>)
        requires
            self.wf(),
            self@.huge_leaf_aligned(page@),
        ensures
            match frame {
                Some(f) => self@.translate_page(page@) == Some(f@),
                None => self@.translate_page(page@).is_none(),
            },
    {
        let i4 = page.p4_index();
        let i3 = page.p3_index();
        let i2 = page.p2_index();
        let i1 = page.p1_index();
        proof {
            assert(self.table3(i4 as int) == self.p4.below()[i4 as int]);
        }
        let p3 = match self.p4.next_table(i4) {
            Some(p3) => p3,
            None => {
                return None;
            },
        };
        proof {
            assert(self.table3(i4 as int) == Some(*p3));
            assert(self.table2(i4 as int, i3 as int) == p3.below()[i3 as int]);
        }
        match p3.next_table(i3) {
            Some(p2) => {
                proof {
                    assert(self.table2(i4 as int, i3 as int) == Some(*p2));
                    assert(self.table1(i4 as int, i3 as int, i2 as int) == p2.below()[i2 as int]);
                }
                match p2.next_table(i2) {
                    Some(p1) => {
                        proof {
                            assert(self.table1(i4 as int, i3 as int, i2 as int) == Some(*p1));
                        }
                        p1.index(i1).pointed_frame()
                    },
                    None => huge_leaf_frame(p2.index(i2), i1 as u64),
                }
            },
            None => huge_leaf_frame(p3.index(i3), (i2 * ENTRY_COUNT + i1) as u64),
        }
    }

    /// The physical address that `virtual_addr` is mapped to, if its page
    /// is mapped. The address must be one that the processor accepts, and
    /// a huge leaf on the way must start at a frame that is aligned to its
    /// size.
    pub fn translate(&self, virtual_addr: VirtualAddress) -> (physical: Option<PhysicalAddress>)
        requires
            self.wf(),
            is_canonical(virtual_addr),
            self@.huge_leaf_aligned(virtual_addr as nat / 4096),
        ensures
            match physical {
                Some(address) => self@.translate(virtual_addr) == Some(address as nat),
                None => self@.translate(virtual_addr).is_none(),
            },
    {
        let offset: u64 = virtual_addr % PAGE_SIZE;
        match self.translate_page(Page::for_address(virtual_addr)) {
            Some(frame) => Some(frame.start_address() + offset),
            None => None,
        }
    }

    /// Maps `page` to `frame` with `flags` and the present flag. The tables
    /// that are missing on the way are made in frames from `allocator`.
    /// No slot on the way may be a huge leaf, the page's own slot must be
    /// unused, and the allocator must have a frame for each missing table.
    pub fn map_to<A>(&mut self, page: Page, frame: Frame, flags: EntryFlags, allocator: &mut A) where
        A: FrameAllocator,

        requires
            old(self).wf(),
            old(allocator).wf(),
            frame@ < SLOT_FRAME_LIMIT,
            old(self)@.is_free(page@),
            can_supply(old(allocator), old(self)@.missing_tables(page@)),
        ensures
            final(self).wf(),
            final(allocator).wf(),
            final(self)@ == old(self)@.map_to(
                page@,
                frame@,
                flags@,
                upcoming_frames(old(allocator), old(self)@.missing_tables(page@)),
            ),
            forall|k: nat|
                final(allocator).upcoming(k) == old(allocator).upcoming(
                    k + old(self)@.missing_tables(page@),
                ),
    {
        let i4 = page.p4_index();
        let i3 = page.p3_index();
        let i2 = page.p2_index();
        let i1 = page.p1_index();
        let ghost before = *self;
        let ghost missing = before@.missing_tables(page@);
        let ghost f4 = allocator.upcoming(0);
        proof {
            assert(before.table3(i4 as int) == before.p4.below()[i4 as int]);
            assert(before.p4.link_at(i4 as int));
        }
        let p3 = self.p4.next_table_create(i4, allocator);
        let ghost p3_found = *p3;
        let ghost p3_after = *final(p3);
        let ghost f3 = allocator.upcoming(0);
        proof {
            if slot_present(before@.p4[i4 as int]) {
                assert(before.table3(i4 as int) == Some(*p3));
                assert(before.table2(i4 as int, i3 as int) == p3.below()[i3 as int]);
                assert(before@.slot3(page@) == p3@[i3 as int]);
            } else {
                p3.lemma_zero_linked();
                lemma_flag_bits(0);
            }
            assert(p3.link_at(i3 as int));
        }
        let p2 = p3.next_table_create(i3, allocator);
        let ghost p2_found = *p2;
        let ghost p2_after = *final(p2);
        let ghost f2 = allocator.upcoming(0);
        proof {
            if slot_present(before@.p4[i4 as int]) && slot_present(before@.slot3(page@)) {
                assert(before.table2(i4 as int, i3 as int) == Some(*p2));
                assert(before.table1(i4 as int, i3 as int, i2 as int) == p2.below()[i2 as int]);
                assert(before@.slot2(page@) == p2@[i2 as int]);
            } else {
                p2.lemma_zero_linked();
                lemma_flag_bits(0);
            }
            assert(p2.link_at(i2 as int));
        }
        let p1 = p2.next_table_create(i2, allocator);
        let ghost p1_found = *p1;
        let ghost p1_after = *final(p1);
        p1.index_mut(i1).set(frame, flags);
        proof {
            let way = Way {
                i4: i4 as int,
                i3: i3 as int,
                i2: i2 as int,
                i1: i1 as int,
                f4: if missing == 3 {
                    f4
                } else {
                    None
                },
                f3: if missing >= 2 {
                    f3
                } else {
                    None
                },
                f2: if missing >= 1 {
                    f2
                } else {
                    None
                },
                p3: p3_found,
                p3_after,
                p2: p2_found,
                p2_after,
                p1: p1_found,
                p1_after,
                bits: slot_bits(frame@, flags@),
            };
            assert(before.grown(self, way));
            before.lemma_grown_wf(self, way);
            before.lemma_grown_view(self, way, page@, upcoming_frames(old(allocator), missing));
        }
    }

    /// Maps `page` to a frame from `allocator`, with `flags` and the
    /// present flag. The allocator must have that frame, and one more for
    /// each table that is missing on the way.
    pub fn map<A>(&mut self, page: Page, flags: EntryFlags, allocator: &mut A) where
        A: FrameAllocator,

        requires
            old(self).wf(),
            old(allocator).wf(),
            old(self)@.is_free(page@),
            can_supply(old(allocator), old(self)@.missing_tables(page@) + 1),
        ensures
            final(self).wf(),
            final(allocator).wf(),
            final(self)@ == old(self)@.map_to(
                page@,
                old(allocator).upcoming(0).unwrap(),
                flags@,
                upcoming_frames(old(allocator), old(self)@.missing_tables(page@) + 1).skip(1),
            ),
            forall|k: nat|
                final(allocator).upcoming(k) == old(allocator).upcoming(
                    k + old(self)@.missing_tables(page@) + 1,
                ),
    {
        let ghost missing = self@.missing_tables(page@);
        proof {
            assert(old(allocator).upcoming(0).is_some());
        }
        let frame = allocator.allocate_frame().unwrap();
        proof {
            assert forall|k: nat| k < missing implies (#[trigger] allocator.upcoming(k)).is_some()
                && allocator.upcoming(k).unwrap() < SLOT_FRAME_LIMIT by {
                assert(old(allocator).upcoming((k + 1) as nat).is_some());
            }
            assert(upcoming_frames(allocator, missing) =~= upcoming_frames(
                old(allocator),
                missing + 1,
            ).skip(1));
        }
        self.map_to(page, frame, flags, allocator)
    }

    /// Maps the page whose address is that of `frame` to `frame`, with
    /// `flags` and the present flag. The frame's address must be one that
    /// the processor accepts as a virtual address.
    pub fn identity_map<A>(&mut self, frame: Frame, flags: EntryFlags, allocator: &mut A) where
        A: FrameAllocator,

        requires
            old(self).wf(),
            old(allocator).wf(),
            frame@ < SLOT_FRAME_LIMIT,
            is_canonical((frame@ * 4096) as u64),
            old(self)@.is_free(frame@),
            can_supply(old(allocator), old(self)@.missing_tables(frame@)),
        ensures
            final(self).wf(),
            final(allocator).wf(),
            final(self)@ == old(self)@.map_to(
                frame@,
                frame@,
                flags@,
                upcoming_frames(old(allocator), old(self)@.missing_tables(frame@)),
            ),
            forall|k: nat|
                final(allocator).upcoming(k) == old(allocator).upcoming(
                    k + old(self)@.missing_tables(frame@),
                ),
    {
        let page = Page::for_address(frame.start_address());
        self.map_to(page, frame, flags, allocator);
    }

    /// Empties the slot of `page`, which must be mapped by a slot of the
    /// bottom level. The frame that the page was mapped to is not given
    /// back to `allocator`.
    pub fn unmap<A>(&mut self, page: Page, allocator: &mut A) where A: FrameAllocator
        requires
            old(self).wf(),
            old(self)@.is_mapped_by_page(page@),
        ensures
            final(self).wf(),
            final(self)@ == old(self)@.unmap(page@),
            *final(allocator) == *old(allocator),
    {
        let i4 = page.p4_index();
        let i3 = page.p3_index();
        let i2 = page.p2_index();
        let i1 = page.p1_index();
        let ghost before = *self;
        proof {
            before.lemma_view_wf();
            assert(before.table3(i4 as int) == before.p4.below()[i4 as int]);
            assert(before.p4.link_at(i4 as int));
        }
        let p3 = self.p4.next_table_mut(i4).unwrap();
        let ghost p3_found = *p3;
        let ghost p3_after = *final(p3);
        proof {
            assert(before.table3(i4 as int) == Some(*p3));
            assert(before.table2(i4 as int, i3 as int) == p3.below()[i3 as int]);
            assert(before@.slot3(page@) == p3@[i3 as int]);
            assert(p3.link_at(i3 as int));
        }
        let p2 = p3.next_table_mut(i3).unwrap();
        let ghost p2_found = *p2;
        let ghost p2_after = *final(p2);
        proof {
            assert(before.table2(i4 as int, i3 as int) == Some(*p2));
            assert(before.table1(i4 as int, i3 as int, i2 as int) == p2.below()[i2 as int]);
            assert(before@.slot2(page@) == p2@[i2 as int]);
            assert(p2.link_at(i2 as int));
        }
        let p1 = p2.next_table_mut(i2).unwrap();
        let ghost p1_found = *p1;
        let ghost p1_after = *final(p1);
        p1.index_mut(i1).set_unused();
        proof {
            let way = Way {
                i4: i4 as int,
                i3: i3 as int,
                i2: i2 as int,
                i1: i1 as int,
                f4: None,
                f3: None,
                f2: None,
                p3: p3_found,
                p3_after,
                p2: p2_found,
                p2_after,
                p1: p1_found,
                p1_after,
                bits: 0,
            };
            assert(before.grown(self, way));
            before.lemma_grown_wf(self, way);
            before.lemma_grown_view(self, way, page@, Seq::empty());
            before@.lemma_make_way_of_whole(page@, Seq::empty());
        }
    }
}

} // verus!
