//! Physical memory: frames, the areas of usable memory, and allocators of
//! frames.

use vstd::prelude::*;

pub mod area_frame_allocator;
pub mod paging;

verus! {

/// The size of a frame and of a page, in bytes.
pub const PAGE_SIZE: u64 = 4096;

/// The number of frames that 64-bit addresses can name.
pub const FRAME_LIMIT: u64 = 0x10_0000_0000_0000;

/// A frame of physical memory. Frames are numbered from physical address 0.
#[derive(Debug, PartialEq, Eq, PartialOrd, Ord)]
pub struct Frame {
    number: u64,
}

impl View for Frame {
    type V = nat;

    /// The frame's number.
    closed spec fn view(&self) -> nat {
        self.number as nat
    }
}

impl Frame {
    /// Every frame starts at an address that fits in 64 bits.
    #[verifier::type_invariant]
    pub closed spec fn in_range(&self) -> bool {
        self.number < FRAME_LIMIT
    }

    /// The frame that holds the physical address `address`.
    pub fn for_address(address: u64) -> (frame: Frame)
        ensures
            frame@ == address as nat / 4096,
            frame.in_range(),
    {
        Frame { number: address / PAGE_SIZE }
    }

    /// The frame with the number `number`.
    pub fn with_number(number: u64) -> (frame: Frame)
        requires
            number < FRAME_LIMIT,
        ensures
            frame@ == number,
            frame.in_range(),
    {
        Frame { number }
    }

    /// The frame's number.
    pub fn number(&self) -> (number: u64)
        ensures
            number == self@,
            number < FRAME_LIMIT,
    {
        proof {
            use_type_invariant(self);
        }
        self.number
    }

    /// The physical address of the frame's first byte.
    pub fn start_address(&self) -> (address: u64)
        ensures
            address == self@ * 4096,
    {
        proof {
            use_type_invariant(self);
        }
        self.number * PAGE_SIZE
    }
}

/// An area of usable physical memory, `length` bytes from the address
/// `base_addr` on.
#[derive(Debug, Clone, Copy, PartialEq, Eq)]
pub struct MemoryArea {
    pub base_addr: u64,
    pub length: u64,
}

impl MemoryArea {
    /// The address of the area's last byte fits in 64 bits.
    pub open spec fn fits(&self) -> bool {
        1 <= self.base_addr + self.length <= u64::MAX
    }

    /// The number of the frame that holds the area's first byte.
    pub open spec fn start_frame(&self) -> nat {
        self.base_addr as nat / 4096
    }

    /// The number of the frame that holds the area's last byte.
    pub open spec fn last_frame(&self) -> nat {
        ((self.base_addr + self.length - 1) / 4096) as nat
    }

    /// The frame with the number `frame` lies between the area's first and
    /// its last frame.
    pub open spec fn holds(&self, frame: nat) -> bool {
        self.start_frame() <= frame <= self.last_frame()
    }
}

/// A source of frames that are not in use. What `allocate_frame` hands out
/// is fixed by the allocator's state: `upcoming` names it, for the next
/// call and for those after it.
pub trait FrameAllocator {
    /// The allocator's state is one that its own methods have left.
    open spec fn wf(&self) -> bool {
        true
    }

    /// The number of the frame that `allocate_frame` hands out after `k`
    /// more calls, if it hands one out then. An allocator that does not say
    /// otherwise has no frame.
    open spec fn upcoming(&self, k: nat) -> Option<nat> {
        None
    }

    /// Whether the allocator takes `frame` back. An allocator that does not
    /// say otherwise takes none back.
    open spec fn takes_back(&self, frame: Frame) -> bool {
        false
    }

    /// Hands out a frame that is not in use, if there is one left.
    fn allocate_frame(&mut self) -> (frame: Option<Frame>)
        requires
            old(self).wf(),
        ensures
            final(self).wf(),
            match frame {
                Some(f) => old(self).upcoming(0) == Some(f@),
                None => old(self).upcoming(0).is_none(),
            },
            forall|k: nat| final(self).upcoming(k) == old(self).upcoming(k + 1),
    ;

    /// Takes back a frame that is no longer in use.
    fn deallocate_frame(&mut self, frame: Frame)
        requires
            old(self).wf(),
            old(self).takes_back(frame),
        ensures
            final(self).wf(),
    ;
}

/// The numbers of the frames that the next `n` calls of `allocate_frame`
/// hand out, where each hands one out.
pub open spec fn upcoming_frames<A: FrameAllocator>(allocator: &A, n: nat) -> Seq<nat> {
    Seq::new(n, |k: int| allocator.upcoming(k as nat).unwrap())
}

/// The next `n` calls of `allocate_frame` each hand out a frame, and one
/// that a slot of a table can name.
pub open spec fn can_supply<A: FrameAllocator>(allocator: &A, n: nat) -> bool {
    forall|k: nat|
        k < n ==> (#[trigger] allocator.upcoming(k)).is_some() && allocator.upcoming(k).unwrap()
            < crate::memory::paging::entry::SLOT_FRAME_LIMIT
}

} // verus!
