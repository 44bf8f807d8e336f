//! The map of physical memory that the boot loader hands to the kernel, and
//! the sequence of free frames that it stands for.

use vstd::prelude::*;
use crate::addr::{align_down, is_page_aligned, is_physical};

verus! {

/// What a region of physical memory is used for. Only `Usable` regions may be
/// handed out as free frames.
#[derive(Clone, Copy, Debug, PartialEq, Eq, Structural)]
pub enum MemoryRegionType {
    /// Free memory.
    Usable,
    /// Memory that is in use already.
    InUse,
    /// Memory that the hardware reserves.
    Reserved,
    /// ACPI tables that may be reclaimed once they were read.
    AcpiReclaimable,
    /// ACPI memory that must be kept.
    AcpiNvs,
    /// Memory that the firmware reported as defective.
    BadMemory,
    /// The kernel's code and data.
    Kernel,
    /// The kernel's stack.
    KernelStack,
    /// The page tables that the boot loader built.
    PageTable,
    /// The boot loader itself.
    Bootloader,
    /// The frame at physical address zero.
    FrameZero,
    /// An empty region.
    Empty,
    /// The boot information.
    BootInfo,
    /// A package supplied along with the kernel.
    Package,
    /// Any kind that this list does not know.
    NonExhaustive,
}

/// One region of physical memory: the addresses from `start_addr` up to, and
/// without, `end_addr`, and what they are used for.
#[derive(Clone, Copy, Debug, PartialEq, Eq, Structural)]
pub struct MemoryRegion {
    /// First address of the region.
    pub start_addr: u64,
    /// First address behind the region.
    pub end_addr: u64,
    /// What the region is used for.
    pub region_type: MemoryRegionType,
}

/// The number of frame addresses met when stepping from `next` to `end`
/// (without it) in steps of one page.
pub open spec fn step_count(next: u64, end: u64) -> nat {
    if next < end {
        ((end - next + 4095) / 4096) as nat
    } else {
        0
    }
}

/// The frames of region `r` that are met when stepping through its addresses
/// from `next` on, page by page: none unless the region is usable.
pub open spec fn region_frames_from(r: MemoryRegion, next: u64) -> Seq<u64> {
    if r.region_type == MemoryRegionType::Usable {
        Seq::new(step_count(next, r.end_addr), |k: int| align_down((next + k * 4096) as u64))
    } else {
        Seq::empty()
    }
}

/// The frames that region `r` offers.
pub open spec fn region_frames(r: MemoryRegion) -> Seq<u64> {
    region_frames_from(r, r.start_addr)
}

/// The frames that a memory map offers: those of its usable regions, region
/// after region in the map's order, each region's frames by rising address.
pub open spec fn usable_frames(regions: Seq<MemoryRegion>) -> Seq<u64>
    decreases regions.len(),
{
    if regions.len() == 0 {
        Seq::empty()
    } else {
        region_frames(regions[0]) + usable_frames(regions.skip(1))
    }
}

/// Whether each address met when stepping through region `r` from `next` on
/// is a physical address.
pub open spec fn region_addressable_from(r: MemoryRegion, next: u64) -> bool {
    r.region_type == MemoryRegionType::Usable && next < r.end_addr ==> next + (step_count(
        next,
        r.end_addr,
    ) - 1) * 4096 < 0x10_0000_0000_0000
}

/// Whether each address met when stepping through the usable regions of the
/// map is a physical address.
pub open spec fn regions_addressable(regions: Seq<MemoryRegion>) -> bool {
    forall|i: int|
        0 <= i < regions.len() ==> region_addressable_from(
            #[trigger] regions[i],
            regions[i].start_addr,
        )
}

/// Whether the usable regions of the map start on page boundaries.
pub open spec fn regions_aligned(regions: Seq<MemoryRegion>) -> bool {
    forall|i: int|
        0 <= i < regions.len() && (#[trigger] regions[i]).region_type == MemoryRegionType::Usable
            ==> is_page_aligned(regions[i].start_addr)
}

/// Whether the usable regions of the map come by rising address and do not
/// overlap: a usable region ends before any later usable region that is not
/// empty starts.
pub open spec fn regions_ascending(regions: Seq<MemoryRegion>) -> bool {
    forall|i: int, j: int|
        0 <= i < j < regions.len() && (#[trigger] regions[i]).region_type
            == MemoryRegionType::Usable && (#[trigger] regions[j]).region_type
            == MemoryRegionType::Usable && regions[i].start_addr < regions[i].end_addr
            && regions[j].start_addr < regions[j].end_addr ==> regions[i].end_addr
            <= regions[j].start_addr
}

/// Where the frame at place `index` of `usable_frames(regions)` comes from:
/// the place of its region in the map, and its place among that region's
/// frames.
pub open spec fn frame_origin(regions: Seq<MemoryRegion>, index: int) -> (int, int)
    decreases regions.len(),
{
    if regions.len() == 0 {
        (0, 0)
    } else if index < region_frames(regions[0]).len() {
        (0, index)
    } else {
        let rest = frame_origin(regions.skip(1), index - region_frames(regions[0]).len());
        (rest.0 + 1, rest.1)
    }
}

/// Each frame that a map offers is a frame of one of its regions, and frames
/// that come later in the sequence come from a later region, or later from
/// the same region.
pub proof fn lemma_frame_origin(regions: Seq<MemoryRegion>, index: int)
    requires
        0 <= index < usable_frames(regions).len(),
    ensures
        0 <= frame_origin(regions, index).0 < regions.len(),
        0 <= frame_origin(regions, index).1 < region_frames(
            regions[frame_origin(regions, index).0],
        ).len(),
        usable_frames(regions)[index] == region_frames(
            regions[frame_origin(regions, index).0],
        )[frame_origin(regions, index).1],
    decreases regions.len(),
{
    let first = region_frames(regions[0]);
    if index >= first.len() {
        lemma_frame_origin(regions.skip(1), index - first.len());
    }
}

/// The origin of frames follows their order in the sequence.
pub proof fn lemma_frame_origin_rises(regions: Seq<MemoryRegion>, i: int, j: int)
    requires
        0 <= i < j < usable_frames(regions).len(),
    ensures
        frame_origin(regions, i).0 < frame_origin(regions, j).0 || (frame_origin(regions, i).0
            == frame_origin(regions, j).0 && frame_origin(regions, i).1 < frame_origin(
            regions,
            j,
        ).1),
    decreases regions.len(),
{
    let first = region_frames(regions[0]);
    if i >= first.len() {
        lemma_frame_origin_rises(regions.skip(1), i - first.len(), j - first.len());
    } else if j >= first.len() {
        lemma_frame_origin(regions.skip(1), j - first.len());
    }
}

/// The frame at place `k` of a usable region that starts on a page boundary
/// starts `k` pages behind the region's start, inside the region.
pub proof fn lemma_region_frame(r: MemoryRegion, k: int)
    requires
        is_page_aligned(r.start_addr),
        0 <= k < region_frames(r).len(),
    ensures
        r.region_type == MemoryRegionType::Usable,
        region_frames(r)[k] == r.start_addr + k * 4096,
        r.start_addr <= region_frames(r)[k] < r.end_addr,
{
}

/// Every frame that a memory map offers starts on a page boundary.
pub proof fn lemma_usable_frames_page_aligned(regions: Seq<MemoryRegion>, index: int)
    requires
        0 <= index < usable_frames(regions).len(),
    ensures
        is_page_aligned(usable_frames(regions)[index]),
{
    lemma_frame_origin(regions, index);
}

/// Every frame that a memory map offers whose steps stay below the end of
/// physical address space is a physical address.
pub proof fn lemma_usable_frames_physical(regions: Seq<MemoryRegion>, index: int)
    requires
        regions_addressable(regions),
        0 <= index < usable_frames(regions).len(),
    ensures
        is_physical(usable_frames(regions)[index]),
{
    lemma_frame_origin(regions, index);
}

/// Every frame that a memory map with page-aligned usable regions offers lies
/// within one of its usable regions.
pub proof fn lemma_usable_frames_within_regions(regions: Seq<MemoryRegion>, index: int)
    requires
        regions_aligned(regions),
        0 <= index < usable_frames(regions).len(),
    ensures
        exists|r: int|
            0 <= r < regions.len() && (#[trigger] regions[r]).region_type
                == MemoryRegionType::Usable && regions[r].start_addr <= usable_frames(
                regions,
            )[index] < regions[r].end_addr,
{
    lemma_frame_origin(regions, index);
    let origin = frame_origin(regions, index);
    lemma_region_frame(regions[origin.0], origin.1);
}

/// The frames that a memory map offers rise strictly, given that its usable
/// regions start on page boundaries, come by rising address and do not
/// overlap. So no frame is offered twice.
pub proof fn lemma_usable_frames_ascending(regions: Seq<MemoryRegion>, i: int, j: int)
    requires
        regions_aligned(regions),
        regions_ascending(regions),
        0 <= i < j < usable_frames(regions).len(),
    ensures
        usable_frames(regions)[i] < usable_frames(regions)[j],
{
    lemma_frame_origin(regions, i);
    lemma_frame_origin(regions, j);
    lemma_frame_origin_rises(regions, i, j);
    let from = frame_origin(regions, i);
    let to = frame_origin(regions, j);
    lemma_region_frame(regions[from.0], from.1);
    lemma_region_frame(regions[to.0], to.1);
}

/// No frame is offered twice by a memory map whose usable regions start on
/// page boundaries, come by rising address and do not overlap.
pub proof fn lemma_usable_frames_distinct(regions: Seq<MemoryRegion>, i: int, j: int)
    requires
        regions_aligned(regions),
        regions_ascending(regions),
        0 <= i < usable_frames(regions).len(),
        0 <= j < usable_frames(regions).len(),
        i != j,
    ensures
        usable_frames(regions)[i] != usable_frames(regions)[j],
{
    if i < j {
        lemma_usable_frames_ascending(regions, i, j);
    } else {
        lemma_usable_frames_ascending(regions, j, i);
    }
}

impl MemoryRegion {
    /// Whether the region has no address.
    pub open spec fn spec_is_empty(self) -> bool {
        self.start_addr >= self.end_addr
    }

    /// Whether the region has no address.
    pub fn is_empty(&self) -> (empty: bool)
        ensures
            empty == self.spec_is_empty(),
    {
        self.start_addr >= self.end_addr
    }

    /// Whether the region may be handed out as free frames.
    pub fn is_usable(&self) -> (usable: bool)
        ensures
            usable == (self.region_type == MemoryRegionType::Usable),
    {
        self.region_type == MemoryRegionType::Usable
    }

    /// Whether the region lies below the end of physical address space as far
    /// as frames are taken from it.
    pub fn is_addressable(&self) -> (addressable: bool)
        ensures
            addressable == region_addressable_from(*self, self.start_addr),
    {
        if self.region_type == MemoryRegionType::Usable && self.start_addr < self.end_addr {
            let last_step: u64 = (self.end_addr - self.start_addr - 1) / 4096;
            assert(last_step == step_count(self.start_addr, self.end_addr) - 1);
            self.start_addr < 0x10_0000_0000_0000 && last_step < 0x1_0000_0000_0000
                && self.start_addr + last_step * 4096 < 0x10_0000_0000_0000
        } else {
            true
        }
    }
}

/// The memory map: the regions of physical memory in the order in which the
/// boot loader reported them.
pub struct MemoryMap {
    regions: Vec<MemoryRegion>,
}

impl View for MemoryMap {
    type V = Seq<MemoryRegion>;

    closed spec fn view(&self) -> Seq<MemoryRegion> {
        self.regions@
    }
}

impl MemoryMap {
    /// A map without regions.
    pub fn new() -> (map: MemoryMap)
        ensures
            map@ == Seq::<MemoryRegion>::empty(),
    {
        MemoryMap { regions: Vec::new() }
    }

    /// Adds a region behind those that the map holds.
    pub fn add_region(&mut self, region: MemoryRegion)
        ensures
            final(self)@ == old(self)@.push(region),
    {
        self.regions.push(region);
    }

    /// The number of regions.
    pub fn len(&self) -> (len: usize)
        ensures
            len == self@.len(),
    {
        self.regions.len()
    }

    /// The region at place `index`.
    pub fn region(&self, index: usize) -> (region: Option<MemoryRegion>)
        ensures
            region == if index < self@.len() {
                Some(self@[index as int])
            } else {
                None
            },
    {
        if index < self.regions.len() {
            Some(self.regions[index])
        } else {
            None
        }
    }

    /// Whether each frame address that the map offers is a physical address.
    pub fn is_addressable(&self) -> (addressable: bool)
        ensures
            addressable == regions_addressable(self@),
    {
        let mut i: usize = 0;
        while i < self.regions.len()
            invariant
                i <= self.regions.len(),
                forall|j: int|
                    0 <= j < i ==> region_addressable_from(
                        #[trigger] self.regions@[j],
                        self.regions@[j].start_addr,
                    ),
            decreases self.regions.len() - i,
        {
            if !self.regions[i].is_addressable() {
                return false;
            }
            i = i + 1;
        }
        true
    }
}

} // verus!
