//! The firmware's map of physical memory, as the bootloader hands it over.
//!
//! The map is a type of the `bootloader` crate. The kernel reads it through
//! the two trusted functions of this file and works on plain numbers from
//! there.

use vstd::prelude::*;
use bootloader::bootinfo::MemoryMap;
use bootloader::bootinfo::MemoryRegionType;
use crate::vmem::paging::PAGE_SIZE;

verus! {

/// The memory map of `bootloader`, taken as it is: nothing is known of a
/// map but what `map_regions` names.
#[verifier::external_type_specification]
#[verifier::external_body]
pub struct ExMemoryMap(MemoryMap);

/// The entry of a memory map of `bootloader`, taken as it is. The map
/// dereferences to a slice of these.
#[verifier::external_type_specification]
#[verifier::external_body]
pub struct ExMapEntry(bootloader::bootinfo::MemoryRegion);

/// What a memory map holds: for each region, in the map's order, the number
/// of its first frame, the number of the first frame after it, and whether
/// the region is free for use.
pub uninterp spec fn map_regions(map: MemoryMap) -> Seq<(u64, u64, bool)>;

/// The number of regions in the map.
///
/// Calls `len` on the slice that a `MemoryMap` of `bootloader` dereferences
/// to. Trusted: that this is the number of regions the map holds.
#[verifier::external_body]
pub(crate) fn region_count(map: &MemoryMap) -> (n: usize)
    ensures
        n == map_regions(*map).len(),
{
    map.len()
}

/// The region at index `i` of the map, as plain numbers.
///
/// Indexes the slice that a `MemoryMap` of `bootloader` dereferences to and
/// reads the public fields of its `MemoryRegion`. Trusted: that this is
/// the region the map holds at `i`. The index panics outside the map, which
/// the precondition leaves out.
#[verifier::external_body]
fn region_at(map: &MemoryMap, i: usize) -> (r: (u64, u64, bool))
    requires
        i < map_regions(*map).len(),
    ensures
        r == map_regions(*map)[i as int],
{
    let region = &map[i];
    (
        region.range.start_frame_number,
        region.range.end_frame_number,
        region.region_type == MemoryRegionType::Usable,
    )
}

/// The number of the first frame that lies beyond physical memory.
pub const FRAME_LIMIT: u64 = 0x100_0000_0000;

/// One region of the memory map.
#[derive(Clone, Copy, Debug, PartialEq, Eq, Structural)]
pub struct PhysRegion {
    /// The number of the region's first 4 KiB frame.
    pub start_frame: u64,
    /// The number of the first 4 KiB frame after the region.
    pub end_frame: u64,
    /// Whether the kernel may use the region freely.
    pub usable: bool,
}

impl PhysRegion {
    /// The physical address at which the region starts.
    pub open spec fn start_addr(self) -> int {
        self.start_frame * PAGE_SIZE
    }

    /// The physical address at which the region ends.
    pub open spec fn end_addr(self) -> int {
        self.end_frame * PAGE_SIZE
    }

    /// Whether the allocator may draw on the region: it is usable, its frames
    /// are in order, and all of it is physical memory.
    pub open spec fn counts(self) -> bool {
        self.usable && self.start_frame <= self.end_frame <= FRAME_LIMIT
    }

    /// Whether the region can be the large region of a heap of `heap_size`
    /// bytes: it counts, and is larger than the heap.
    pub open spec fn holds(self, heap_size: u64) -> bool {
        self.counts() && self.end_addr() - self.start_addr() > heap_size
    }
}

/// The regions of a memory map.
pub open spec fn regions_of(map: MemoryMap) -> Seq<PhysRegion> {
    map_regions(map).map_values(
        |r: (u64, u64, bool)| PhysRegion { start_frame: r.0, end_frame: r.1, usable: r.2 },
    )
}

/// The region at index `i` of the map.
pub(crate) fn region(map: &MemoryMap, i: usize) -> (r: PhysRegion)
    requires
        i < regions_of(*map).len(),
    ensures
        r == regions_of(*map)[i as int],
{
    let (start_frame, end_frame, usable) = region_at(map, i);
    PhysRegion { start_frame, end_frame, usable }
}

} // verus!
