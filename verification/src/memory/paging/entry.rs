//! One slot of a page table: a 64-bit word that holds flags and, where the
//! slot is present, the number of a frame.

use crate::memory::Frame;
use vstd::prelude::*;

verus! {

/// The slot is in use.
pub const PRESENT: u64 = 0x1;

/// The memory below the slot may be written.
pub const WRITABLE: u64 = 0x2;

/// The memory below the slot may be reached from user mode.
pub const USER_ACCESSIBLE: u64 = 0x4;

/// Writes go through the cache to memory.
pub const WRITE_THROUGH: u64 = 0x8;

/// The memory below the slot is not cached.
pub const NO_CACHE: u64 = 0x10;

/// The processor has used the slot.
pub const ACCESSED: u64 = 0x20;

/// The processor has written through the slot.
pub const DIRTY: u64 = 0x40;

/// The slot is a leaf that maps a huge page.
pub const HUGE_PAGE: u64 = 0x80;

/// The mapping stays cached when the address space changes.
pub const GLOBAL: u64 = 0x100;

/// No code may run from the memory below the slot.
pub const NO_EXECUTE: u64 = 0x8000_0000_0000_0000;

/// The bits of a slot that are flags.
pub const FLAGS_MASK: u64 = 0x8000_0000_0000_01ff;

/// The bits of a slot that hold the frame's start address.
pub const ADDRESS_MASK: u64 = 0x000f_ffff_ffff_f000;

/// The number of frames that a slot can name.
pub const SLOT_FRAME_LIMIT: u64 = 0x100_0000_0000;

/// A set of the flags of a slot.
#[derive(Debug, Clone, Copy, PartialEq, Eq)]
pub struct EntryFlags {
    bits: u64,
}

impl View for EntryFlags {
    type V = u64;

    /// The flags as the bits of a slot.
    closed spec fn view(&self) -> u64 {
        self.bits
    }
}

impl EntryFlags {
    /// No bit is set that is not a flag.
    #[verifier::type_invariant]
    pub open spec fn wf(&self) -> bool {
        self@ & !FLAGS_MASK == 0
    }

    /// The set without a flag.
    pub fn empty() -> (flags: EntryFlags)
        ensures
            flags@ == 0,
            flags.wf(),
    {
        assert(0u64 & !FLAGS_MASK == 0) by (bit_vector);
        EntryFlags { bits: 0 }
    }

    /// The flags among `bits`; the bits that are no flag are dropped.
    pub fn from_bits_truncate(bits: u64) -> (flags: EntryFlags)
        ensures
            flags@ == bits & FLAGS_MASK,
            flags.wf(),
    {
        assert((bits & FLAGS_MASK) & !FLAGS_MASK == 0) by (bit_vector);
        EntryFlags { bits: bits & FLAGS_MASK }
    }

    /// The flags as the bits of a slot.
    pub fn bits(&self) -> (bits: u64)
        ensures
            bits == self@,
            bits & !FLAGS_MASK == 0,
    {
        proof {
            use_type_invariant(self);
        }
        self.bits
    }

    /// Whether every flag of `other` is in the set.
    pub fn contains(&self, other: EntryFlags) -> (held: bool)
        ensures
            held == (self@ & other@ == other@),
    {
        self.bits & other.bits == other.bits
    }

    /// The flags of both sets.
    pub fn union(self, other: EntryFlags) -> (flags: EntryFlags)
        ensures
            flags@ == self@ | other@,
            flags.wf(),
    {
        proof {
            use_type_invariant(self);
            use_type_invariant(other);
        }
        let a: u64 = self.bits;
        let b: u64 = other.bits;
        assert((a | b) & !FLAGS_MASK == 0) by (bit_vector)
            requires
                a & !FLAGS_MASK == 0,
                b & !FLAGS_MASK == 0,
        ;
        EntryFlags { bits: a | b }
    }
}

/// What a slot holds after `set`: the frame's start address, the flags, and
/// the present flag.
pub open spec fn slot_bits(frame: nat, flags: u64) -> u64 {
    ((frame * 4096) as u64) | flags | PRESENT
}

/// One slot of a page table.
#[derive(Debug, Clone, Copy, PartialEq, Eq)]
pub struct Entry {
    bits: u64,
}

impl View for Entry {
    type V = u64;

    /// The slot's 64 bits.
    closed spec fn view(&self) -> u64 {
        self.bits
    }
}

/// The slot with the bits `bits` is in use.
pub open spec fn slot_present(bits: u64) -> bool {
    bits & PRESENT == PRESENT
}

/// The slot with the bits `bits` is marked as the leaf of a huge page.
pub open spec fn slot_huge(bits: u64) -> bool {
    bits & HUGE_PAGE == HUGE_PAGE
}

/// The slot with the bits `bits` leads to a table of the next level.
pub open spec fn slot_leads_to_table(bits: u64) -> bool {
    slot_present(bits) && !slot_huge(bits)
}

/// The number of the frame in the address bits of `bits`.
pub open spec fn slot_frame(bits: u64) -> nat {
    ((bits & ADDRESS_MASK) / 4096) as nat
}

/// The frame that the slot with the bits `bits` points to, if the slot is
/// present.
pub open spec fn slot_pointed_frame(bits: u64) -> Option<nat> {
    if slot_present(bits) {
        Some(slot_frame(bits))
    } else {
        None
    }
}

impl Entry {
    /// The slot holds nothing: neither a flag nor a frame.
    pub open spec fn spec_is_unused(&self) -> bool {
        self@ == 0
    }

    /// A slot that holds nothing.
    pub fn unused() -> (entry: Entry)
        ensures
            entry@ == 0,
    {
        Entry { bits: 0 }
    }

    /// Whether the slot holds nothing.
    #[verifier::when_used_as_spec(spec_is_unused)]
    pub fn is_unused(&self) -> (unused: bool)
        ensures
            unused == self.spec_is_unused(),
    {
        self.bits == 0
    }

    /// The slot with the bits `bits`.
    pub fn from_bits(bits: u64) -> (entry: Entry)
        ensures
            entry@ == bits,
    {
        Entry { bits }
    }

    /// Whether the slot is in use.
    pub fn is_present(&self) -> (present: bool)
        ensures
            present == slot_present(self@),
    {
        self.bits & PRESENT == PRESENT
    }

    /// Whether the slot is marked as the leaf of a huge page.
    pub fn is_huge(&self) -> (huge: bool)
        ensures
            huge == slot_huge(self@),
    {
        self.bits & HUGE_PAGE == HUGE_PAGE
    }

    /// The slot's 64 bits.
    pub fn bits(&self) -> (bits: u64)
        ensures
            bits == self@,
    {
        self.bits
    }

    /// Empties the slot.
    pub fn set_unused(&mut self)
        ensures
            final(self)@ == 0,
    {
        self.bits = 0;
    }

    /// The slot's flags.
    pub fn flags(&self) -> (flags: EntryFlags)
        ensures
            flags@ == self@ & FLAGS_MASK,
            flags.wf(),
    {
        EntryFlags::from_bits_truncate(self.bits)
    }

    /// The frame that the slot points to, if the slot is present.
    pub fn pointed_frame(&self) -> (frame: Option<Frame>)
        ensures
            match frame {
                Some(f) => slot_pointed_frame(self@) == Some(f@) && f@ < SLOT_FRAME_LIMIT,
                None => slot_pointed_frame(self@).is_none(),
            },
    {
        if self.bits & PRESENT == PRESENT {
            let bits: u64 = self.bits;
            assert((bits & ADDRESS_MASK) / 4096 < 0x100_0000_0000) by (bit_vector);
            Some(Frame::with_number((bits & ADDRESS_MASK) / 4096))
        } else {
            None
        }
    }

    /// Points the slot to `frame`, with `flags` and the present flag. The
    /// frame has to fit into the slot's address bits.
    pub fn set(&mut self, frame: Frame, flags: EntryFlags)
        requires
            frame@ < SLOT_FRAME_LIMIT,
        ensures
            final(self)@ == slot_bits(frame@, flags@),
    {
        let address: u64 = frame.start_address();
        let flag_bits: u64 = flags.bits();
        self.bits = address | flag_bits | PRESENT;
    }
}

/// Each named flag is among the bits that are flags, and a slot's flags
/// show whether the slot is present and whether it is a huge leaf.
pub proof fn lemma_flag_bits(bits: u64)
    ensures
        PRESENT & FLAGS_MASK == PRESENT,
        WRITABLE & FLAGS_MASK == WRITABLE,
        HUGE_PAGE & FLAGS_MASK == HUGE_PAGE,
        (PRESENT | WRITABLE) & FLAGS_MASK == PRESENT | WRITABLE,
        WRITABLE | PRESENT == PRESENT | WRITABLE,
        (PRESENT | WRITABLE) & !FLAGS_MASK == 0,
        ((bits & FLAGS_MASK) & PRESENT == PRESENT) == slot_present(bits),
        ((bits & FLAGS_MASK) & HUGE_PAGE == HUGE_PAGE) == slot_huge(bits),
        (bits | PRESENT) | PRESENT == bits | PRESENT,
        !slot_present(0),
        !slot_huge(0),
        !slot_huge(PRESENT | WRITABLE),
{
    assert(1u64 & 0x8000_0000_0000_01ff == 1 && 2u64 & 0x8000_0000_0000_01ff == 2 && 128u64
        & 0x8000_0000_0000_01ff == 128 && (1u64 | 2) & 0x8000_0000_0000_01ff == 1u64 | 2 && 2u64
        | 1 == 1u64 | 2 && (1u64 | 2) & !0x8000_0000_0000_01ffu64 == 0) by (bit_vector);
    assert((((bits & 0x8000_0000_0000_01ff) & 1 == 1) == (bits & 1 == 1)) && (((bits
        & 0x8000_0000_0000_01ff) & 128 == 128) == (bits & 128 == 128)) && (bits | 1) | 1 == bits
        | 1 && 0u64 & 1 != 1 && 0u64 & 128 != 128 && (1u64 | 2) & 128 != 128) by (bit_vector);
}

/// What can be read from a slot that `set` has written.
pub proof fn lemma_slot_bits(frame: nat, flags: u64)
    requires
        frame < SLOT_FRAME_LIMIT,
        flags & !FLAGS_MASK == 0,
    ensures
        slot_bits(frame, flags) != 0,
        slot_present(slot_bits(frame, flags)),
        slot_bits(frame, flags) & FLAGS_MASK == flags | PRESENT,
        slot_pointed_frame(slot_bits(frame, flags)) == Some(frame),
        slot_huge(slot_bits(frame, flags)) == (flags & HUGE_PAGE == HUGE_PAGE),
{
    let n: u64 = frame as u64;
    let a: u64 = (frame * 4096) as u64;
    assert(a == n << 12) by (bit_vector)
        requires
            n < 0x100_0000_0000,
            a == n * 4096,
    ;
    let bits: u64 = a | flags | 1;
    assert(bits != 0 && bits & 1 == 1 && bits & 0x8000_0000_0000_01ff == flags | 1 && (bits
        & 0x000f_ffff_ffff_f000) / 4096 == n && ((bits & 128 == 128) == (flags & 128 == 128)))
        by (bit_vector)
        requires
            n < 0x100_0000_0000,
            a == n << 12,
            flags & !0x8000_0000_0000_01ff == 0,
            bits == a | flags | 1,
    ;
}

} // verus!
