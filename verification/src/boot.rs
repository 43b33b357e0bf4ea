//! The two ranges of memory that are in use when the kernel starts: that of
//! the kernel's image and that of the boot information.

use vstd::prelude::*;

verus! {

/// A section of the kernel's image, `size` bytes from the address `addr`
/// on.
#[derive(Debug, Clone, Copy, PartialEq, Eq)]
pub struct Section {
    pub addr: u64,
    pub size: u64,
}

impl Section {
    /// The address after the section's last byte.
    pub open spec fn end(&self) -> nat {
        (self.addr + self.size) as nat
    }
}

/// The range from `low` to `high` is the least that holds every section:
/// it starts where the lowest section starts and ends where the highest
/// ends.
pub open spec fn is_span(sections: Seq<Section>, low: nat, high: nat) -> bool {
    &&& forall|i: int| 0 <= i < sections.len() ==> low <= (#[trigger] sections[i]).addr
    &&& forall|i: int| 0 <= i < sections.len() ==> (#[trigger] sections[i]).end() <= high
    &&& exists|i: int| 0 <= i < sections.len() && (#[trigger] sections[i]).addr == low
    &&& exists|i: int| 0 <= i < sections.len() && (#[trigger] sections[i]).end() == high
}

/// The range of memory that the kernel's image takes: from the start of its
/// lowest section to the end of its highest. There must be a section, and
/// the end of each must fit in 64 bits.
pub fn get_kernel_range(sections: &Vec<Section>) -> (range: (u64, u64))
    requires
        sections@.len() > 0,
        forall|i: int| 0 <= i < sections@.len() ==> (#[trigger] sections@[i]).end() <= u64::MAX,
    ensures
        is_span(sections@, range.0 as nat, range.1 as nat),
{
    let mut kernel_start: u64 = sections[0].addr;
    let mut kernel_end: u64 = sections[0].addr + sections[0].size;
    let mut i: usize = 1;
    proof {
        let first = sections@.take(1);
        assert(first[0] == sections@[0]);
        assert(first[0].addr == kernel_start && first[0].end() == kernel_end);
    }
    while i < sections.len()
        invariant
            1 <= i <= sections@.len(),
            forall|j: int| 0 <= j < sections@.len() ==> (#[trigger] sections@[j]).end() <= u64::MAX,
            is_span(sections@.take(i as int), kernel_start as nat, kernel_end as nat),
        decreases sections@.len() - i,
    {
        let ghost seen = sections@.take(i as int);
        let ghost low = choose|j: int| 0 <= j < seen.len() && (#[trigger] seen[j]).addr == kernel_start;
        let ghost high = choose|j: int| 0 <= j < seen.len() && (#[trigger] seen[j]).end() == kernel_end;
        let section = sections[i];
        let end: u64 = section.addr + section.size;
        if section.addr < kernel_start {
            kernel_start = section.addr;
        }
        if end > kernel_end {
            kernel_end = end;
        }
        proof {
            let now = sections@.take(i + 1);
            assert forall|j: int| 0 <= j < now.len() implies kernel_start <= (#[trigger] now[j]).addr
                && now[j].end() <= kernel_end by {
                if j < i {
                    assert(seen[j] == now[j]);
                }
            }
            assert(now[low] == seen[low] && now[high] == seen[high]);
            assert(now[i as int] == section);
            assert(now[if kernel_start == section.addr {
                i as int
            } else {
                low
            }].addr == kernel_start);
            assert(now[if kernel_end == end {
                i as int
            } else {
                high
            }].end() == kernel_end);
        }
        i += 1;
    }
    assert(sections@.take(i as int) =~= sections@);
    (kernel_start, kernel_end)
}

/// The range of memory that the boot information takes: `total_size` bytes
/// from the address `mb_start` on. Its end must fit in 64 bits.
pub fn get_mb_range(mb_start: u64, total_size: u64) -> (range: (u64, u64))
    requires
        mb_start + total_size <= u64::MAX,
    ensures
        range.0 == mb_start,
        range.1 == mb_start + total_size,
{
    let mb_end: u64 = mb_start + total_size;
    (mb_start, mb_end)
}

} // verus!
