//! What a four-level hierarchy of tables holds, as plain data, and what
//! translating, mapping and unmapping mean on it.

use crate::memory::paging::entry::{
    lemma_flag_bits, lemma_slot_bits, slot_bits, slot_frame, slot_huge, slot_leads_to_table,
    slot_pointed_frame, slot_present, EntryFlags, PRESENT, SLOT_FRAME_LIMIT, WRITABLE,
};
use crate::memory::paging::{
    lemma_indices_in_range, p1_index_of, p2_index_of, p3_index_of, p4_index_of, ENTRY_COUNT,
};
use vstd::prelude::*;

verus! {

/// A table whose slots are all unused.
pub open spec fn zero_table() -> Seq<u64> {
    Seq::new(ENTRY_COUNT as nat, |i: int| 0u64)
}

/// The tables of a hierarchy. Each table is the sequence of the bits of its
/// slots. A table below the top is named by the indices of the slots that
/// lead to it, from the top down.
pub struct Hierarchy {
    /// The top table.
    pub p4: Seq<u64>,
    /// The tables of the third level.
    pub p3: Map<int, Seq<u64>>,
    /// The tables of the second level.
    pub p2: Map<(int, int), Seq<u64>>,
    /// The tables of the bottom level.
    pub p1: Map<(int, int, int), Seq<u64>>,
}

impl Hierarchy {
    /// Every table has 512 slots, and a table exists exactly where a slot
    /// of an existing table leads to it.
    pub open spec fn wf(self) -> bool {
        &&& self.p4.len() == ENTRY_COUNT
        &&& forall|i: int| #[trigger]
            self.p3.dom().contains(i) <==> 0 <= i < ENTRY_COUNT && slot_leads_to_table(self.p4[i])
        &&& forall|i: int| #[trigger] self.p3.dom().contains(i) ==> self.p3[i].len() == ENTRY_COUNT
        &&& forall|i: int, j: int| #[trigger]
            self.p2.dom().contains((i, j)) <==> self.p3.dom().contains(i) && 0 <= j < ENTRY_COUNT
                && slot_leads_to_table(self.p3[i][j])
        &&& forall|i: int, j: int| #[trigger]
            self.p2.dom().contains((i, j)) ==> self.p2[(i, j)].len() == ENTRY_COUNT
        &&& forall|i: int, j: int, k: int| #[trigger]
            self.p1.dom().contains((i, j, k)) <==> self.p2.dom().contains((i, j)) && 0 <= k
                < ENTRY_COUNT && slot_leads_to_table(self.p2[(i, j)][k])
        &&& forall|i: int, j: int, k: int| #[trigger]
            self.p1.dom().contains((i, j, k)) ==> self.p1[(i, j, k)].len() == ENTRY_COUNT
    }

    /// The top table's slot on the way to `page`.
    pub open spec fn slot4(self, page: nat) -> u64 {
        self.p4[p4_index_of(page)]
    }

    /// The third-level slot on the way to `page`; meaningful where the top
    /// table's slot leads to a table.
    pub open spec fn slot3(self, page: nat) -> u64 {
        self.p3[p4_index_of(page)][p3_index_of(page)]
    }

    /// The second-level slot on the way to `page`; meaningful where the
    /// third-level slot leads to a table.
    pub open spec fn slot2(self, page: nat) -> u64 {
        self.p2[(p4_index_of(page), p3_index_of(page))][p2_index_of(page)]
    }

    /// The bottom slot of `page`; meaningful where the second-level slot
    /// leads to a table.
    pub open spec fn slot1(self, page: nat) -> u64 {
        self.p1[(p4_index_of(page), p3_index_of(page), p2_index_of(page))][p1_index_of(page)]
    }

    /// The frame that `page` is mapped to, if it is mapped. A present slot
    /// of the bottom level maps the page to its frame. A huge leaf of the
    /// second level maps it into a run of 512 frames, one of the third
    /// level into a run of 512 * 512 frames.
    pub open spec fn translate_page(self, page: nat) -> Option<nat> {
        if !slot_leads_to_table(self.slot4(page)) {
            None
        } else if slot_leads_to_table(self.slot3(page)) {
            if slot_leads_to_table(self.slot2(page)) {
                slot_pointed_frame(self.slot1(page))
            } else if slot_present(self.slot2(page)) {
                Some((slot_frame(self.slot2(page)) + p1_index_of(page)) as nat)
            } else {
                None
            }
        } else if slot_present(self.slot3(page)) {
            Some(
                (slot_frame(self.slot3(page)) + p2_index_of(page) * ENTRY_COUNT + p1_index_of(
                    page,
                )) as nat,
            )
        } else {
            None
        }
    }

    /// A huge leaf on the way to `page`, if there is one, starts at a frame
    /// whose number is a multiple of the number of frames that it spans.
    pub open spec fn huge_leaf_aligned(self, page: nat) -> bool {
        slot_leads_to_table(self.slot4(page)) ==> if slot_leads_to_table(self.slot3(page)) {
            slot_present(self.slot2(page)) && slot_huge(self.slot2(page)) ==> slot_frame(
                self.slot2(page),
            ) % (ENTRY_COUNT as nat) == 0
        } else {
            slot_present(self.slot3(page)) ==> slot_frame(self.slot3(page)) % (ENTRY_COUNT
                * ENTRY_COUNT) as nat == 0
        }
    }

    /// The physical address that the virtual address `address` is mapped
    /// to, if its page is mapped: the place in the frame that `address` has
    /// in its page.
    pub open spec fn translate(self, address: u64) -> Option<nat> {
        match self.translate_page(address as nat / 4096) {
            Some(frame) => Some(frame * 4096 + address as nat % 4096),
            None => None,
        }
    }

    /// The number of tables on the way to `page` that do not exist, from 0
    /// to 3. Where a table does not exist, none below it does.
    pub open spec fn missing_tables(self, page: nat) -> nat {
        if !slot_leads_to_table(self.slot4(page)) {
            3
        } else if !slot_leads_to_table(self.slot3(page)) {
            2
        } else if !slot_leads_to_table(self.slot2(page)) {
            1
        } else {
            0
        }
    }

    /// `page` can be mapped: no slot on the way to it is a huge leaf, and
    /// its bottom slot is unused or is yet to be made.
    pub open spec fn is_free(self, page: nat) -> bool {
        &&& !slot_huge(self.slot4(page))
        &&& self.missing_tables(page) <= 2 ==> !slot_huge(self.slot3(page))
        &&& self.missing_tables(page) <= 1 ==> !slot_huge(self.slot2(page))
        &&& self.missing_tables(page) == 0 ==> self.slot1(page) == 0
    }

    /// The hierarchy after the tables that are missing on the way to
    /// `page` are made, from the top down, in the frames `frames[0]`,
    /// `frames[1]` and so on: each is a table of unused slots behind a slot
    /// that is present and writable.
    pub open spec fn make_way(self, page: nat, frames: Seq<nat>) -> Hierarchy {
        let i4 = p4_index_of(page);
        let i3 = p3_index_of(page);
        let i2 = p2_index_of(page);
        let missing = self.missing_tables(page);
        let slot4 = if missing == 3 {
            slot_bits(frames[0], PRESENT | WRITABLE)
        } else {
            self.slot4(page)
        };
        let slot3 = if missing >= 2 {
            slot_bits(frames[missing - 2], PRESENT | WRITABLE)
        } else {
            self.slot3(page)
        };
        let slot2 = if missing >= 1 {
            slot_bits(frames[missing - 1], PRESENT | WRITABLE)
        } else {
            self.slot2(page)
        };
        let table3 = if missing == 3 {
            zero_table()
        } else {
            self.p3[i4]
        };
        let table2 = if missing >= 2 {
            zero_table()
        } else {
            self.p2[(i4, i3)]
        };
        let table1 = if missing >= 1 {
            zero_table()
        } else {
            self.p1[(i4, i3, i2)]
        };
        Hierarchy {
            p4: self.p4.update(i4, slot4),
            p3: self.p3.insert(i4, table3.update(i3, slot3)),
            p2: self.p2.insert((i4, i3), table2.update(i2, slot2)),
            p1: self.p1.insert((i4, i3, i2), table1),
        }
    }

    /// The hierarchy after the bottom slot of `page` is given the bits
    /// `bits`.
    pub open spec fn write(self, page: nat, bits: u64) -> Hierarchy {
        let key = (p4_index_of(page), p3_index_of(page), p2_index_of(page));
        Hierarchy { p1: self.p1.insert(key, self.p1[key].update(p1_index_of(page), bits)), ..self }
    }

    /// The hierarchy after `page` is mapped to `frame` with `flags` and the
    /// present flag, the tables that are missing on the way being made in
    /// `frames`.
    pub open spec fn map_to(self, page: nat, frame: nat, flags: u64, frames: Seq<nat>) -> Hierarchy {
        self.make_way(page, frames).write(page, slot_bits(frame, flags))
    }

    /// `page` is mapped by a slot of the bottom level.
    pub open spec fn is_mapped_by_page(self, page: nat) -> bool {
        &&& slot_leads_to_table(self.slot4(page))
        &&& slot_leads_to_table(self.slot3(page))
        &&& slot_leads_to_table(self.slot2(page))
        &&& slot_present(self.slot1(page))
    }

    /// The hierarchy after the bottom slot of `page` is emptied.
    pub open spec fn unmap(self, page: nat) -> Hierarchy {
        self.write(page, 0)
    }

    /// Where no table is missing on the way to `page`, making the way
    /// changes nothing.
    pub proof fn lemma_make_way_of_whole(self, page: nat, frames: Seq<nat>)
        requires
            self.wf(),
            self.missing_tables(page) == 0,
            !slot_huge(self.slot4(page)),
            !slot_huge(self.slot3(page)),
            !slot_huge(self.slot2(page)),
        ensures
            self.make_way(page, frames) == self,
    {
        lemma_indices_in_range(page);
        let i4 = p4_index_of(page);
        let i3 = p3_index_of(page);
        let i2 = p2_index_of(page);
        let made = self.make_way(page, frames);
        assert(self.p3.dom().contains(i4));
        assert(self.p2.dom().contains((i4, i3)));
        assert(self.p1.dom().contains((i4, i3, i2)));
        assert(made.p4 =~= self.p4);
        assert(self.p3[i4].update(i3, self.slot3(page)) =~= self.p3[i4]);
        assert(made.p3 =~= self.p3);
        assert(self.p2[(i4, i3)].update(i2, self.slot2(page)) =~= self.p2[(i4, i3)]);
        assert(made.p2 =~= self.p2);
        assert(made.p1 =~= self.p1);
    }

    /// After `page` is mapped to `frame`, each address of the page
    /// translates to the address at the same place in the frame.
    pub proof fn lemma_map_to_then_translate(
        self,
        page: nat,
        frame: nat,
        flags: EntryFlags,
        frames: Seq<nat>,
        offset: nat,
    )
        requires
            self.wf(),
            self.is_free(page),
            page * 4096 <= u64::MAX,
            offset < 4096,
            frame < SLOT_FRAME_LIMIT,
            flags.wf(),
            forall|k: int| 0 <= k < self.missing_tables(page) ==> frames[k] < SLOT_FRAME_LIMIT,
        ensures
            page * 4096 + offset <= u64::MAX,
            self.map_to(page, frame, flags@, frames).translate_page(page) == Some(frame),
            self.map_to(page, frame, flags@, frames).translate((page * 4096 + offset) as u64)
                == Some(frame * 4096 + offset),
    {
        lemma_indices_in_range(page);
        lemma_flag_bits(0);
        lemma_slot_bits(frame, flags@);
        let missing = self.missing_tables(page);
        if missing == 3 {
            lemma_slot_bits(frames[0], PRESENT | WRITABLE);
        }
        if missing >= 2 {
            lemma_slot_bits(frames[missing - 2], PRESENT | WRITABLE);
        }
        if missing >= 1 {
            lemma_slot_bits(frames[missing - 1], PRESENT | WRITABLE);
        }
        let mapped = self.map_to(page, frame, flags@, frames);
        let i4 = p4_index_of(page);
        let i3 = p3_index_of(page);
        let i2 = p2_index_of(page);
        if missing < 3 {
            assert(self.p3.dom().contains(i4));
        }
        if missing < 2 {
            assert(self.p2.dom().contains((i4, i3)));
        }
        if missing < 1 {
            assert(self.p1.dom().contains((i4, i3, i2)));
        }
        assert(slot_leads_to_table(mapped.slot4(page)));
        assert(slot_leads_to_table(mapped.slot3(page)));
        assert(slot_leads_to_table(mapped.slot2(page)));
        assert(mapped.slot1(page) == slot_bits(frame, flags@));
        let address = page * 4096 + offset;
        assert(address / 4096 == page && address % 4096 == offset) by (nonlinear_arith)
            requires
                address == page * 4096 + offset,
                offset < 4096,
        ;
    }

    /// After `page` is unmapped, no address of the page translates.
    pub proof fn lemma_unmap_then_translate(self, page: nat, offset: nat)
        requires
            self.wf(),
            self.is_mapped_by_page(page),
            page * 4096 <= u64::MAX,
            offset < 4096,
        ensures
            page * 4096 + offset <= u64::MAX,
            self.unmap(page).translate_page(page).is_none(),
            self.unmap(page).translate((page * 4096 + offset) as u64).is_none(),
    {
        lemma_indices_in_range(page);
        lemma_flag_bits(0);
        let i4 = p4_index_of(page);
        let i3 = p3_index_of(page);
        let i2 = p2_index_of(page);
        assert(self.p3.dom().contains(i4));
        assert(self.p2.dom().contains((i4, i3)));
        assert(self.p1.dom().contains((i4, i3, i2)));
        let unmapped = self.unmap(page);
        assert(unmapped.slot1(page) == 0);
        let address = page * 4096 + offset;
        assert(address / 4096 == page && address % 4096 == offset) by (nonlinear_arith)
            requires
                address == page * 4096 + offset,
                offset < 4096,
        ;
    }

    /// Mapping or unmapping a page leaves the translation of every page
    /// that goes through another bottom slot as it was, where no table
    /// had to be made.
    pub proof fn lemma_write_keeps_others(self, page: nat, bits: u64, other: nat)
        requires
            self.wf(),
            self.missing_tables(page) == 0,
            (p4_index_of(other), p3_index_of(other), p2_index_of(other), p1_index_of(other)) != (
                p4_index_of(page),
                p3_index_of(page),
                p2_index_of(page),
                p1_index_of(page),
            ),
        ensures
            self.write(page, bits).translate_page(other) == self.translate_page(other),
    {
        lemma_indices_in_range(page);
        lemma_indices_in_range(other);
        let i4 = p4_index_of(page);
        let i3 = p3_index_of(page);
        let i2 = p2_index_of(page);
        assert(self.p3.dom().contains(i4));
        assert(self.p2.dom().contains((i4, i3)));
        assert(self.p1.dom().contains((i4, i3, i2)));
    }
}

} // verus!
