//! An allocator that hands out the frames of the usable memory areas in
//! rising order, leaving out two reserved ranges, and takes none back.

use crate::memory::paging::entry::SLOT_FRAME_LIMIT;
use crate::memory::{can_supply, Frame, FrameAllocator, MemoryArea, FRAME_LIMIT, PAGE_SIZE};
use vstd::prelude::*;

verus! {

/// What an `AreaFrameAllocator` works on: the usable areas, the two
/// reserved ranges of frames with both ends included, and the number of
/// the first frame that it has not yet passed.
pub struct AllocatorState {
    pub next_free_frame: nat,
    pub areas: Seq<MemoryArea>,
    pub kernel_range: (nat, nat),
    pub mb_range: (nat, nat),
}

impl AllocatorState {
    /// Some area holds the frame.
    pub open spec fn in_area(self, frame: nat) -> bool {
        exists|i: int| 0 <= i < self.areas.len() && #[trigger] self.areas[i].holds(frame)
    }

    /// The frame lies in one of the two reserved ranges.
    pub open spec fn is_reserved(self, frame: nat) -> bool {
        ||| self.kernel_range.0 <= frame <= self.kernel_range.1
        ||| self.mb_range.0 <= frame <= self.mb_range.1
    }

    /// The frame may be handed out: an area holds it and it is not
    /// reserved.
    pub open spec fn is_free(self, frame: nat) -> bool {
        self.in_area(frame) && !self.is_reserved(frame)
    }

    /// `frame` is the first frame from `from` on that may be handed out.
    pub open spec fn is_first_free(self, from: nat, frame: nat) -> bool {
        &&& from <= frame
        &&& self.is_free(frame)
        &&& forall|g: nat| from <= g < frame ==> !self.is_free(g)
    }

    /// No frame from `from` on may be handed out.
    pub open spec fn none_free(self, from: nat) -> bool {
        forall|g: nat| from <= g ==> !self.is_free(g)
    }

    /// The first frame from `from` on that may be handed out, if there is
    /// one.
    pub open spec fn first_free(self, from: nat) -> Option<nat> {
        if exists|frame: nat| self.is_first_free(from, frame) {
            Some(choose|frame: nat| self.is_first_free(from, frame))
        } else {
            None
        }
    }

    /// The frame that is handed out after `k` others, where handing out
    /// starts at the frame `from`; none if the frames run out before.
    pub open spec fn nth_free(self, from: nat, k: nat) -> Option<nat>
        decreases k,
    {
        match self.first_free(from) {
            None => None,
            Some(frame) => if k == 0 {
                Some(frame)
            } else {
                self.nth_free(frame + 1, (k - 1) as nat)
            },
        }
    }

    /// The first free frame from `from` on is `frame`, where `frame` is
    /// one.
    pub proof fn lemma_first_free_is(self, from: nat, frame: nat)
        requires
            self.is_first_free(from, frame),
        ensures
            self.first_free(from) == Some(frame),
    {
        let chosen = choose|f: nat| self.is_first_free(from, f);
        assert(self.is_first_free(from, chosen));
        if chosen < frame {
            assert(!self.is_free(chosen));
        }
        if frame < chosen {
            assert(!self.is_free(frame));
        }
    }

    /// Frames that may not be handed out can be skipped: where none from
    /// `from` up to `to` is free, handing out from `from` and from `to` on
    /// gives the same frames.
    pub proof fn lemma_nth_free_skip(self, from: nat, to: nat, k: nat)
        requires
            from <= to,
            forall|g: nat| from <= g < to ==> !self.is_free(g),
        ensures
            self.nth_free(from, k) == self.nth_free(to, k),
    {
        match self.first_free(to) {
            Some(frame) => {
                assert(self.is_first_free(to, frame));
                assert(self.is_first_free(from, frame));
                self.lemma_first_free_is(from, frame);
            },
            None => {
                if self.first_free(from).is_some() {
                    let frame = self.first_free(from).unwrap();
                    assert(self.is_first_free(from, frame));
                    assert(self.is_first_free(to, frame));
                }
            },
        }
    }

    /// Which frames are handed out depends on the areas and the reserved
    /// ranges alone.
    pub proof fn lemma_nth_free_same(self, other: AllocatorState, from: nat, k: nat)
        requires
            self.areas == other.areas,
            self.kernel_range == other.kernel_range,
            self.mb_range == other.mb_range,
        ensures
            self.nth_free(from, k) == other.nth_free(from, k),
        decreases k,
    {
        assert forall|frame: nat| self.is_free(frame) == other.is_free(frame) by {
            assert(self.in_area(frame) == other.in_area(frame));
        }
        match self.first_free(from) {
            Some(frame) => {
                assert(self.is_first_free(from, frame));
                assert(other.is_first_free(from, frame));
                other.lemma_first_free_is(from, frame);
                if k > 0 {
                    self.lemma_nth_free_same(other, frame + 1, (k - 1) as nat);
                }
            },
            None => {
                if other.first_free(from).is_some() {
                    let frame = other.first_free(from).unwrap();
                    assert(other.is_first_free(from, frame));
                    assert(self.is_first_free(from, frame));
                }
            },
        }
    }

    /// There is no first free frame from `from` on where none is free.
    pub proof fn lemma_first_free_none(self, from: nat)
        requires
            self.none_free(from),
        ensures
            self.first_free(from).is_none(),
    {
        assert forall|frame: nat| !self.is_first_free(from, frame) by {
            if from <= frame {
                assert(!self.is_free(frame));
            }
        }
    }
}

impl AllocatorState {
    /// Every frame that is handed out lies in an area and in neither
    /// reserved range, and is not before the frame at which handing out
    /// started.
    pub proof fn lemma_handed_out_is_free(self, from: nat, k: nat)
        requires
            self.nth_free(from, k).is_some(),
        ensures
            from <= self.nth_free(from, k).unwrap(),
            self.in_area(self.nth_free(from, k).unwrap()),
            !self.is_reserved(self.nth_free(from, k).unwrap()),
        decreases k,
    {
        let first = self.first_free(from).unwrap();
        assert(self.is_first_free(from, first));
        if k > 0 {
            self.lemma_handed_out_is_free(first + 1, (k - 1) as nat);
        }
    }

    /// The frames are handed out in rising order: a frame that is handed
    /// out later has a higher number, so no frame is handed out twice.
    pub proof fn lemma_handed_out_rising(self, from: nat, j: nat, k: nat)
        requires
            j < k,
            self.nth_free(from, k).is_some(),
        ensures
            self.nth_free(from, j).is_some(),
            self.nth_free(from, j).unwrap() < self.nth_free(from, k).unwrap(),
        decreases j,
    {
        let first = self.first_free(from).unwrap();
        if j == 0 {
            self.lemma_handed_out_is_free(first + 1, (k - 1) as nat);
        } else {
            self.lemma_handed_out_rising(first + 1, (j - 1) as nat, (k - 1) as nat);
        }
    }

    /// Once the frames have run out, they stay run out.
    pub proof fn lemma_run_out_stays(self, from: nat, j: nat, k: nat)
        requires
            j <= k,
            self.nth_free(from, j).is_none(),
        ensures
            self.nth_free(from, k).is_none(),
        decreases j,
    {
        if self.first_free(from).is_some() && j > 0 {
            let first = self.first_free(from).unwrap();
            self.lemma_run_out_stays(first + 1, (j - 1) as nat, (k - 1) as nat);
        }
    }
}

/// A frame of an area that starts and ends at the border of a frame lies
/// within the area, from its first byte to its last.
pub proof fn lemma_frame_within_area(area: MemoryArea, frame: nat)
    requires
        area.fits(),
        area.holds(frame),
        area.base_addr % 4096 == 0,
        (area.base_addr + area.length) % 4096 == 0,
    ensures
        area.base_addr <= frame * 4096,
        frame * 4096 + 4096 <= area.base_addr + area.length,
{
}

/// A frame outside the range of frames that holds the addresses from `low`
/// to `high` holds none of these addresses.
pub proof fn lemma_frame_outside_range(low: nat, high: nat, frame: nat, address: nat)
    requires
        !(low / 4096 <= frame <= high / 4096),
        address / 4096 == frame,
    ensures
        !(low <= address <= high),
{
}

/// An allocator over the usable areas of memory. It hands out each frame
/// once, in rising order, and never one of the two reserved ranges.
#[derive(Debug)]
pub struct AreaFrameAllocator {
    next_free_frame: u64,
    current_area: Option<MemoryArea>,
    areas: Vec<MemoryArea>,
    kernel_start: u64,
    kernel_end: u64,
    mb_start: u64,
    mb_end: u64,
}

impl View for AreaFrameAllocator {
    type V = AllocatorState;

    closed spec fn view(&self) -> AllocatorState {
        AllocatorState {
            next_free_frame: self.next_free_frame as nat,
            areas: self.areas@,
            kernel_range: (self.kernel_start as nat, self.kernel_end as nat),
            mb_range: (self.mb_start as nat, self.mb_end as nat),
        }
    }
}

impl AreaFrameAllocator {
    /// The area that frames are taken from at present, if any is left.
    spec fn spec_current_area(&self) -> Option<MemoryArea> {
        self.current_area
    }

    /// The parts of the state that do not depend on the area that frames
    /// are taken from: the areas and ranges are in bounds.
    spec fn bounded(&self) -> bool {
        &&& self.next_free_frame <= FRAME_LIMIT
        &&& self.kernel_end < FRAME_LIMIT
        &&& self.mb_end < FRAME_LIMIT
        &&& forall|i: int| 0 <= i < self.areas@.len() ==> (#[trigger] self.areas@[i]).fits()
    }

    /// The area `area` has a frame at or after the next free one.
    spec fn has_frames_left(&self, area: MemoryArea) -> bool {
        area.last_frame() >= self.next_free_frame
    }

    /// Picks the area to take frames from: of the areas that have a frame
    /// at or after the next free one, the one with the lowest base
    /// address, and of several of those the first. Where that area starts
    /// after the next free frame, the frames before it are skipped.
    fn choose_next_area(&mut self)
        requires
            old(self).bounded(),
        ensures
            final(self).bounded(),
            final(self)@.areas == old(self)@.areas,
            final(self)@.kernel_range == old(self)@.kernel_range,
            final(self)@.mb_range == old(self)@.mb_range,
            final(self)@.next_free_frame >= old(self)@.next_free_frame,
            forall|g: nat|
                old(self)@.next_free_frame <= g < final(self)@.next_free_frame ==> !old(
                    self,
                )@.in_area(g),
            match final(self).spec_current_area() {
                Some(area) => {
                    &&& final(self)@.areas.contains(area)
                    &&& old(self).has_frames_left(area)
                    &&& forall|i: int|
                        0 <= i < old(self)@.areas.len() && old(self).has_frames_left(
                            #[trigger] old(self)@.areas[i],
                        ) ==> area.base_addr <= old(self)@.areas[i].base_addr
                    &&& final(self)@.next_free_frame == if old(self)@.next_free_frame
                        < area.start_frame() {
                        area.start_frame()
                    } else {
                        old(self)@.next_free_frame
                    }
                },
                None => {
                    &&& final(self)@.next_free_frame == old(self)@.next_free_frame
                    &&& forall|i: int|
                        0 <= i < old(self)@.areas.len() ==> !old(self).has_frames_left(
                            #[trigger] old(self)@.areas[i],
                        )
                    &&& forall|g: nat| old(self)@.next_free_frame <= g ==> !old(self)@.in_area(g)
                },
            },
    {
        let mut best: Option<MemoryArea> = None;
        let mut i: usize = 0;
        while i < self.areas.len()
            invariant
                i <= self.areas@.len(),
                *self == *old(self),
                self.bounded(),
                match best {
                    Some(area) => {
                        &&& exists|j: int| 0 <= j < i && self.areas@[j] == area
                        &&& self.has_frames_left(area)
                        &&& forall|j: int|
                            0 <= j < i && self.has_frames_left(#[trigger] self.areas@[j])
                                ==> area.base_addr <= self.areas@[j].base_addr
                    },
                    None => forall|j: int|
                        0 <= j < i ==> !self.has_frames_left(#[trigger] self.areas@[j]),
                },
            decreases self.areas@.len() - i,
        {
            let area = self.areas[i];
            assert(self.areas@[i as int].fits());
            let address: u64 = area.base_addr + area.length - 1;
            if address / PAGE_SIZE >= self.next_free_frame {
                let better = match best {
                    Some(found) => area.base_addr < found.base_addr,
                    None => true,
                };
                if better {
                    best = Some(area);
                }
            }
            i += 1;
        }
        self.current_area = best;
        match best {
            Some(area) => {
                let start_frame: u64 = area.base_addr / PAGE_SIZE;
                if self.next_free_frame < start_frame {
                    self.next_free_frame = start_frame;
                }
                proof {
                    assert forall|g: nat|
                        old(self)@.next_free_frame <= g < self@.next_free_frame implies !old(
                        self,
                    )@.in_area(g) by {
                        assert forall|j: int| 0 <= j < self.areas@.len() implies !(
                        #[trigger] self.areas@[j]).holds(g) by {
                            if self.areas@[j].holds(g) {
                                assert(old(self).has_frames_left(self.areas@[j]));
                            }
                        }
                    }
                }
            },
            None => {
                proof {
                    assert forall|g: nat| old(self)@.next_free_frame <= g implies !old(
                        self,
                    )@.in_area(g) by {
                        assert forall|j: int| 0 <= j < self.areas@.len() implies !(
                        #[trigger] self.areas@[j]).holds(g) by {
                            assert(!self.has_frames_left(self.areas@[j]));
                        }
                    }
                }
            },
        }
    }

    /// What is left to do before a frame is handed out or the frames have
    /// run out: twice the number of frames that can still be passed, and
    /// one more where another area has to be picked first.
    spec fn steps_left(&self) -> int {
        2 * (FRAME_LIMIT - self.next_free_frame) + (match self.current_area {
            Some(area) => if self.next_free_frame > area.last_frame() {
                1int
            } else {
                0int
            },
            None => 0int,
        })
    }

    /// An allocator over `memory_areas` that leaves out the frames of the
    /// kernel, from the address `kernel_range.0` to `kernel_range.1`, and
    /// those of the boot information, from `mb_range.0` to `mb_range.1`.
    /// It starts at the first frame of the area with the lowest base
    /// address. The last byte of each area must have an address that fits
    /// in 64 bits.
    pub fn new(memory_areas: Vec<MemoryArea>, kernel_range: (u64, u64), mb_range: (u64, u64)) -> (allocator:
        AreaFrameAllocator)
        requires
            forall|i: int| 0 <= i < memory_areas@.len() ==> (#[trigger] memory_areas@[i]).fits(),
        ensures
            allocator.wf(),
            allocator@.areas == memory_areas@,
            allocator@.kernel_range == (kernel_range.0 as nat / 4096, kernel_range.1 as nat / 4096),
            allocator@.mb_range == (mb_range.0 as nat / 4096, mb_range.1 as nat / 4096),
            forall|i: int|
                0 <= i < memory_areas@.len() ==> allocator@.next_free_frame <= (
                #[trigger] memory_areas@[i]).start_frame(),
            memory_areas@.len() == 0 ==> allocator@.next_free_frame == 0,
            memory_areas@.len() > 0 ==> exists|i: int|
                0 <= i < memory_areas@.len() && allocator@.next_free_frame == (
                #[trigger] memory_areas@[i]).start_frame(),
            forall|k: nat| allocator.upcoming(k) == allocator@.nth_free(0, k),
    {
        let mut allocator = AreaFrameAllocator {
            next_free_frame: 0,
            current_area: None,
            areas: memory_areas,
            kernel_start: kernel_range.0 / PAGE_SIZE,
            kernel_end: kernel_range.1 / PAGE_SIZE,
            mb_start: mb_range.0 / PAGE_SIZE,
            mb_end: mb_range.1 / PAGE_SIZE,
        };
        allocator.choose_next_area();
        proof {
            let state = allocator@;
            match allocator.current_area {
                Some(area) => {
                    let j = choose|j: int| 0 <= j < state.areas.len() && state.areas[j] == area;
                    assert(state.areas[j].start_frame() == state.next_free_frame);
                    assert forall|i: int| 0 <= i < state.areas.len() implies state.next_free_frame
                        <= (#[trigger] state.areas[i]).start_frame() by {
                        assert(state.areas[i].fits());
                    }
                },
                None => {
                    if state.areas.len() > 0 {
                        assert(state.areas[0].last_frame() >= 0);
                    }
                },
            }
            assert forall|k: nat| allocator.upcoming(k) == state.nth_free(0, k) by {
                state.lemma_nth_free_skip(0, state.next_free_frame, k);
            }
        }
        allocator
    }
}

impl AreaFrameAllocator {
    /// An allocator in the same state.
    fn duplicate(&self) -> (copy: AreaFrameAllocator)
        requires
            self.wf(),
        ensures
            copy.wf(),
            copy@ == self@,
    {
        let mut areas: Vec<MemoryArea> = Vec::new();
        let mut i: usize = 0;
        while i < self.areas.len()
            invariant
                i <= self.areas@.len(),
                areas@ == self.areas@.take(i as int),
            decreases self.areas@.len() - i,
        {
            areas.push(self.areas[i]);
            assert(areas@ =~= self.areas@.take(i + 1));
            i += 1;
        }
        assert(areas@ =~= self.areas@);
        let copy = AreaFrameAllocator {
            next_free_frame: self.next_free_frame,
            current_area: self.current_area,
            areas,
            kernel_start: self.kernel_start,
            kernel_end: self.kernel_end,
            mb_start: self.mb_start,
            mb_end: self.mb_end,
        };
        assert(copy@ == self@);
        assert forall|g: nat| copy@.in_area(g) == self@.in_area(g) by {}
        copy
    }

    /// Whether the next `count` calls of `allocate_frame` each hand out a
    /// frame, and one that a slot of a table can name. The allocator stays
    /// as it is.
    pub fn can_supply(&self, count: usize) -> (enough: bool)
        requires
            self.wf(),
        ensures
            enough == can_supply(self, count as nat),
    {
        let mut probe = self.duplicate();
        let mut taken: usize = 0;
        while taken < count
            invariant
                taken <= count,
                probe.wf(),
                forall|k: nat| probe.upcoming(k) == self.upcoming((k + taken) as nat),
                can_supply(self, taken as nat),
            decreases count - taken,
        {
            let ghost before = probe;
            let frame = probe.allocate_frame();
            proof {
                assert(before.upcoming(0) == self.upcoming(taken as nat));
                assert forall|k: nat| probe.upcoming(k) == self.upcoming((k + taken + 1) as nat) by {
                    assert(probe.upcoming(k) == before.upcoming(k + 1));
                    assert(before.upcoming(k + 1) == self.upcoming((k + 1 + taken) as nat));
                }
            }
            match frame {
                Some(f) => {
                    if f.number() >= SLOT_FRAME_LIMIT {
                        return false;
                    }
                },
                None => {
                    return false;
                },
            }
            taken += 1;
        }
        true
    }
}

impl FrameAllocator for AreaFrameAllocator {
    /// The areas and ranges are in bounds, and the area that frames are
    /// taken from starts at or before the next free frame; where there is
    /// no such area, no area has a frame left.
    closed spec fn wf(&self) -> bool {
        &&& self.bounded()
        &&& match self.current_area {
            Some(area) => self.areas@.contains(area) && area.start_frame() <= self.next_free_frame,
            None => forall|g: nat| self.next_free_frame <= g ==> !self@.in_area(g),
        }
    }

    open spec fn upcoming(&self, k: nat) -> Option<nat> {
        self@.nth_free(self@.next_free_frame, k)
    }

    /// The allocator takes no frame back.
    open spec fn takes_back(&self, frame: Frame) -> bool {
        false
    }

    /// Hands out the first frame, from the next free one on, that lies in
    /// an area and in neither reserved range, and goes on to the frame
    /// after it.
    fn allocate_frame(&mut self) -> (frame: Option<Frame>)
        ensures
            final(self)@.areas == old(self)@.areas,
            final(self)@.kernel_range == old(self)@.kernel_range,
            final(self)@.mb_range == old(self)@.mb_range,
            final(self)@.next_free_frame <= FRAME_LIMIT,
            match frame {
                Some(f) => {
                    &&& old(self)@.is_first_free(old(self)@.next_free_frame, f@)
                    &&& final(self)@.next_free_frame == f@ + 1
                },
                None => {
                    &&& old(self)@.none_free(old(self)@.next_free_frame)
                    &&& final(self)@.next_free_frame >= old(self)@.next_free_frame
                },
            },
    {
        let ghost start = self@;
        loop
            invariant
                self.wf(),
                self@.areas == start.areas,
                self@.kernel_range == start.kernel_range,
                self@.mb_range == start.mb_range,
                start == old(self)@,
                self@.next_free_frame >= start.next_free_frame,
                forall|g: nat| start.next_free_frame <= g < self@.next_free_frame ==> !start.is_free(g),
            decreases self.steps_left(),
        {
            let ghost state = self@;
            proof {
                assert forall|g: nat| state.in_area(g) == start.in_area(g) by {}
            }
            match self.current_area {
                None => {
                    proof {
                        assert(start.none_free(start.next_free_frame));
                        start.lemma_first_free_none(start.next_free_frame);
                        assert(state.none_free(state.next_free_frame)) by {
                            assert forall|g: nat| state.next_free_frame <= g implies !state.is_free(
                                g,
                            ) by {}
                        }
                        state.lemma_first_free_none(state.next_free_frame);
                    }
                    return None;
                },
                Some(area) => {
                    proof {
                        let j = choose|j: int| 0 <= j < state.areas.len() && state.areas[j] == area;
                        assert(state.areas[j].fits());
                    }
                    let last: u64 = (area.base_addr + area.length - 1) / PAGE_SIZE;
                    if self.next_free_frame > last {
                        self.choose_next_area();
                        proof {
                            assert forall|g: nat| self@.in_area(g) == start.in_area(g) by {}
                        }
                    } else if self.kernel_start <= self.next_free_frame && self.next_free_frame
                        <= self.kernel_end {
                        self.next_free_frame = self.kernel_end + 1;
                    } else if self.mb_start <= self.next_free_frame && self.next_free_frame
                        <= self.mb_end {
                        self.next_free_frame = self.mb_end + 1;
                    } else {
                        let number: u64 = self.next_free_frame;
                        self.next_free_frame = number + 1;
                        proof {
                            assert(area.holds(number as nat));
                            assert(start.in_area(number as nat));
                            assert(start.is_first_free(start.next_free_frame, number as nat));
                            start.lemma_first_free_is(start.next_free_frame, number as nat);
                            assert forall|k: nat|
                                self.upcoming(k) == old(self).upcoming(k + 1) by {
                                start.lemma_nth_free_same(self@, (number + 1) as nat, k);
                            }
                        }
                        return Some(Frame::with_number(number));
                    }
                },
            }
        }
    }

    /// The allocator takes no frame back: there is no frame for which this
    /// may be called.
    fn deallocate_frame(&mut self, frame: Frame) {
        vstd::pervasive::unreached()
    }
}

/// Takes every frame that `frame_allocator` has left, and says how many
/// there were.
pub fn alloc_all_mem(frame_allocator: &mut AreaFrameAllocator) -> (count: u64)
    requires
        old(frame_allocator).wf(),
    ensures
        final(frame_allocator).wf(),
        forall|k: nat| k < count ==> (#[trigger] old(frame_allocator).upcoming(k)).is_some(),
        old(frame_allocator).upcoming(count as nat).is_none(),
        forall|k: nat| final(frame_allocator).upcoming(k).is_none(),
        final(frame_allocator)@.areas == old(frame_allocator)@.areas,
        final(frame_allocator)@.kernel_range == old(frame_allocator)@.kernel_range,
        final(frame_allocator)@.mb_range == old(frame_allocator)@.mb_range,
{
    let mut count: u64 = 0;
    loop
        invariant
            frame_allocator.wf(),
            count <= frame_allocator@.next_free_frame <= FRAME_LIMIT,
            frame_allocator@.areas == old(frame_allocator)@.areas,
            frame_allocator@.kernel_range == old(frame_allocator)@.kernel_range,
            frame_allocator@.mb_range == old(frame_allocator)@.mb_range,
            forall|k: nat| k < count ==> (#[trigger] old(frame_allocator).upcoming(k)).is_some(),
            forall|k: nat|
                frame_allocator.upcoming(k) == old(frame_allocator).upcoming((k + count) as nat),
        decreases FRAME_LIMIT - frame_allocator@.next_free_frame,
    {
        let ghost before = *frame_allocator;
        match frame_allocator.allocate_frame() {
            Some(frame) => {
                proof {
                    assert(before.upcoming(0) == old(frame_allocator).upcoming(count as nat));
                    assert forall|k: nat|
                        frame_allocator.upcoming(k) == old(frame_allocator).upcoming(
                            (k + count + 1) as nat,
                        ) by {
                        assert(frame_allocator.upcoming(k) == before.upcoming(k + 1));
                        assert(before.upcoming(k + 1) == old(frame_allocator).upcoming(
                            (k + 1 + count) as nat,
                        ));
                    }
                }
                count += 1;
            },
            None => {
                proof {
                    assert(before.upcoming(0) == old(frame_allocator).upcoming(count as nat));
                    assert forall|k: nat| frame_allocator.upcoming(k).is_none() by {
                        before@.lemma_run_out_stays(before@.next_free_frame, 0, k + 1);
                        assert(frame_allocator.upcoming(k) == before.upcoming(k + 1));
                    }
                }
                return count;
            },
        }
    }
}

} // verus!
