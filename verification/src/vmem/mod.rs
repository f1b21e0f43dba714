//! Virtual memory: pages, frames and their sizes, the map of physical
//! memory, and a frame allocator that walks the map.

pub mod memory_map;
pub mod paging;

use vstd::prelude::*;
use bootloader::bootinfo::MemoryMap;
use crate::units::MiB;
use crate::vmem::memory_map::region;
use crate::vmem::memory_map::region_count;
use crate::vmem::memory_map::regions_of;
use crate::vmem::memory_map::PhysRegion;
use crate::vmem::memory_map::FRAME_LIMIT;
use crate::vmem::paging::frame_containing;
use crate::vmem::paging::Frame;
use crate::vmem::paging::FrameSize;
use crate::vmem::paging::PAGE_SIZE;

verus! {

/// Whether the allocator draws on the region: it counts, and is larger than
/// 2 MiB.
pub open spec fn serves(region: PhysRegion) -> bool {
    region.counts() && region.end_addr() - region.start_addr() > 2 * MiB
}

/// The start of the `n`th small frame, counted from zero, of the regions
/// that the allocator draws on, in the order of the regions.
pub open spec fn usable_frame(regions: Seq<PhysRegion>, n: nat) -> Option<u64>
    decreases regions.len(),
{
    if regions.len() == 0 {
        None
    } else if !serves(regions[0]) {
        usable_frame(regions.skip(1), n)
    } else if n < regions[0].end_frame - regions[0].start_frame {
        Some(((regions[0].start_frame + n) * PAGE_SIZE) as u64)
    } else {
        usable_frame(
            regions.skip(1),
            (n - (regions[0].end_frame - regions[0].start_frame)) as nat,
        )
    }
}

/// A frame allocator that hands out the small frames of the usable regions
/// one after another, and finds each by walking the memory map.
pub struct BootInfoFrameAllocator<'a> {
    memory_map: &'a MemoryMap,
    next: usize,
}

impl<'a> BootInfoFrameAllocator<'a> {
    /// The regions that the allocator walks.
    pub closed spec fn regions(&self) -> Seq<PhysRegion> {
        regions_of(*self.memory_map)
    }

    /// The number of the next frame.
    pub closed spec fn next_frame(&self) -> nat {
        self.next as nat
    }

    /// The allocator over the memory map; every frame of a region that it
    /// draws on must be unused.
    pub fn new(memory_map: &'a MemoryMap) -> (r: Self)
        ensures
            r.regions() == regions_of(*memory_map),
            r.next_frame() == 0,
    {
        BootInfoFrameAllocator { memory_map, next: 0 }
    }

    /// The start of the `n`th usable frame; see `usable_frame`.
    pub fn usable_frame_at(&self, n: usize) -> (r: Option<u64>)
        ensures
            r == usable_frame(self.regions(), n as nat),
            r matches Some(addr) ==> addr < crate::vmem::paging::PHYS_LIMIT && addr
                % PAGE_SIZE == 0,
    {
        let ghost regions = self.regions();
        let count = region_count(self.memory_map);
        let mut left: u64 = n as u64;
        let mut i: usize = 0;
        proof {
            assert(regions.skip(0) =~= regions);
        }
        while i < count
            invariant
                i <= count,
                count == regions.len(),
                regions == regions_of(*self.memory_map),
                usable_frame(regions, n as nat) == usable_frame(regions.skip(i as int), left as nat),
            decreases count - i,
        {
            let r = region(self.memory_map, i);
            proof {
                assert(regions.skip(i as int)[0] == regions[i as int]);
                assert(regions.skip(i as int).skip(1) =~= regions.skip(i + 1));
            }
            if r.usable && r.start_frame <= r.end_frame && r.end_frame <= FRAME_LIMIT && (
            r.end_frame - r.start_frame) * PAGE_SIZE > 2 * MiB {
                let frames = r.end_frame - r.start_frame;
                if left < frames {
                    let addr = (r.start_frame + left) * PAGE_SIZE;
                    proof {
                        vstd::arithmetic::div_mod::lemma_mod_multiples_basic(
                            (r.start_frame + left) as int,
                            PAGE_SIZE as int,
                        );
                    }
                    return Some(addr);
                }
                left -= frames;
            }
            i += 1;
        }
        None
    }

    /// Hands out the next frame, if the map has one left.
    pub fn allocate_frame(&mut self) -> (r: Option<Frame>)
        ensures
            final(self).regions() == old(self).regions(),
            final(self).next_frame() == (if old(self).next_frame() < usize::MAX {
                old(self).next_frame() + 1
            } else {
                old(self).next_frame()
            }),
            r == match usable_frame(old(self).regions(), old(self).next_frame()) {
                Some(start) => Some(Frame { start, size: FrameSize::Small }),
                None => None,
            },
            r matches Some(f) ==> f.wf(),
    {
        let frame = match self.usable_frame_at(self.next) {
            Some(addr) => {
                proof {
                    crate::addr::lemma_aligned_fixed(addr as int, PAGE_SIZE as int);
                }
                Some(frame_containing(addr))
            },
            None => None,
        };
        if self.next < usize::MAX {
            self.next += 1;
        }
        frame
    }
}

} // verus!
