//! Virtual memory for the kernel: the allocator that hands out the frames of
//! the usable regions of the memory map, the mapper over the active page
//! tables, and the mapping of a page to the frame of the text screen.

use vstd::prelude::*;
use crate::addr::{
    Frame,
    is_frame,
    Page,
    PageTableLevel,
};
use crate::mapper::{
    in_window,
    MappedPageTable,
    MapperFlush,
    phys_to_virt,
};
use crate::mapping::{
    MapState,
    MapToError,
    spec_frames_taken,
    spec_map_result,
    spec_map_to,
    spec_translate,
    spec_walk,
    TranslateError,
};
use crate::memory_map::{
    lemma_usable_frames_page_aligned,
    lemma_usable_frames_physical,
    MemoryMap,
    MemoryRegion,
    MemoryRegionType,
    region_addressable_from,
    region_frames_from,
    regions_addressable,
    step_count,
    usable_frames,
};
use crate::page_table::{
    PageTableMemory,
    PRESENT,
    WRITABLE,
};

verus! {

/// Where the allocator stands: in which region of the map, and at which
/// address of it.
#[derive(Clone, Copy, Debug, PartialEq, Eq, Structural)]
struct Cursor {
    region: usize,
    next: u64,
}

/// The frames still to come for a cursor in `regions`: the rest of the
/// cursor's region, then the frames of the regions behind it.
pub open spec fn frames_after(regions: Seq<MemoryRegion>, region: int, next: u64) -> Seq<u64> {
    if 0 <= region < regions.len() {
        region_frames_from(regions[region], next) + usable_frames(
            regions.subrange(region + 1, regions.len() as int),
        )
    } else {
        Seq::empty()
    }
}

/// Whether a cursor stands in `regions` with physical addresses only ahead
/// of it.
spec fn cursor_inv(regions: Seq<MemoryRegion>, cursor: Cursor) -> bool {
    &&& cursor.region <= regions.len()
    &&& cursor.region < regions.len() ==> region_addressable_from(
        regions[cursor.region as int],
        cursor.next,
    )
    &&& forall|i: int|
        cursor.region < i < regions.len() ==> region_addressable_from(
            #[trigger] regions[i],
            regions[i].start_addr,
        )
}

/// The frames still to come for a cursor.
spec fn frames_ahead(regions: Seq<MemoryRegion>, cursor: Cursor) -> Seq<u64> {
    frames_after(regions, cursor.region as int, cursor.next)
}

/// Steps a cursor over the next frame: gives the frame, and the cursor
/// behind it; or `None` where no frame is left.
fn next_frame(regions: &Vec<MemoryRegion>, from: Cursor) -> (next: (Option<Frame>, Cursor))
    requires
        cursor_inv(regions@, from),
    ensures
        cursor_inv(regions@, next.1),
        match next.0 {
            Some(f) => {
                &&& frames_ahead(regions@, from).len() > 0
                &&& f.wf()
                &&& f.start() == frames_ahead(regions@, from)[0]
                &&& frames_ahead(regions@, next.1) == frames_ahead(regions@, from).skip(1)
            },
            None => {
                &&& frames_ahead(regions@, from).len() == 0
                &&& frames_ahead(regions@, next.1) == frames_ahead(regions@, from)
            },
        },
{
    let mut cursor = from;
    while cursor.region < regions.len()
        invariant
            cursor_inv(regions@, cursor),
            frames_ahead(regions@, cursor) == frames_ahead(regions@, from),
        decreases regions@.len() - cursor.region,
    {
        let region: MemoryRegion = regions[cursor.region];
        let next: u64 = cursor.next;
        if region.region_type == MemoryRegionType::Usable && next < region.end_addr {
            let ghost before = frames_ahead(regions@, cursor);
            let ghost rest = usable_frames(
                regions@.subrange(cursor.region + 1, regions@.len() as int),
            );
            assert(step_count(next, region.end_addr) >= 1);
            assert(next < 0x10_0000_0000_0000);
            let frame = Frame::containing_address(next);
            let after: u64 = next + 4096;
            proof {
                lemma_region_frames_step(region, next);
            }
            let stepped = Cursor { region: cursor.region, next: after };
            assert(frames_ahead(regions@, stepped) == before.skip(1)) by {
                assert(region_frames_from(region, after) + rest =~= (region_frames_from(region, next)
                    + rest).skip(1));
            }
            return (Some(frame), stepped);
        }
        let following: usize = cursor.region + 1;
        let start_addr: u64 = if following < regions.len() {
            regions[following].start_addr
        } else {
            0
        };
        proof {
            let all = regions@;
            let len = all.len() as int;
            assert(region_frames_from(region, next) =~= Seq::<u64>::empty());
            if following < len {
                let tail = all.subrange(following as int, len);
                assert(tail[0] == all[following as int]);
                assert(tail.skip(1) =~= all.subrange(following + 1, len));
                assert(frames_after(all, following as int, start_addr) =~= usable_frames(tail));
            } else {
                assert(all.subrange(following as int, len) =~= Seq::<MemoryRegion>::empty());
            }
            assert(frames_after(all, following as int, start_addr) =~= frames_after(
                all,
                following - 1,
                next,
            ));
        }
        cursor = Cursor { region: following, next: start_addr };
    }
    (None, cursor)
}

/// An allocator that hands out the frames of the usable regions of a memory
/// map once each, in the map's order, and never takes one back.
pub struct BootInfoFrameAllocator {
    regions: Vec<MemoryRegion>,
    cursor: Cursor,
}

impl BootInfoFrameAllocator {
    #[verifier::type_invariant]
    spec fn inv(self) -> bool {
        cursor_inv(self.regions@, self.cursor)
    }

    /// The start addresses of the frames that the allocator has yet to hand
    /// out, in the order in which it will.
    pub closed spec fn remaining(self) -> Seq<u64> {
        frames_ahead(self.regions@, self.cursor)
    }

    /// Each address that the allocator has yet to hand out is the start of a
    /// frame. Does nothing when run: it makes known what holds of every
    /// allocator.
    pub(crate) fn remaining_are_frames(&self)
        ensures
            forall|i: int| 0 <= i < self.remaining().len() ==> is_frame(#[trigger] self.remaining()[i]),
    {
        proof {
            use_type_invariant(self);
            let regions = self.regions@;
            let region = self.cursor.region as int;
            let next = self.cursor.next;
            if region < regions.len() {
                let first = region_frames_from(regions[region], next);
                let rest = regions.subrange(region + 1, regions.len() as int);
                assert forall|i: int| 0 <= i < self.remaining().len() implies is_frame(
                    #[trigger] self.remaining()[i],
                ) by {
                    if i >= first.len() {
                        assert(regions_addressable(rest));
                        lemma_usable_frames_page_aligned(rest, i - first.len());
                        lemma_usable_frames_physical(rest, i - first.len());
                    }
                }
            }
        }
    }

    /// Hands out the next frame, or `None` once all frames of the usable
    /// regions were handed out.
    pub fn allocate_frame(&mut self) -> (frame: Option<Frame>)
        ensures
            match frame {
                Some(f) => {
                    &&& old(self).remaining().len() > 0
                    &&& f.wf()
                    &&& f.start() == old(self).remaining()[0]
                    &&& final(self).remaining() == old(self).remaining().skip(1)
                },
                None => {
                    &&& old(self).remaining().len() == 0
                    &&& final(self).remaining() == old(self).remaining()
                },
            },
    {
        proof {
            use_type_invariant(&*self);
        }
        let next = next_frame(&self.regions, self.cursor);
        self.cursor = next.1;
        next.0
    }

    /// The next frames that the allocator will hand out, up to `count` of
    /// them, without taking them.
    pub fn upcoming_frames(&self, count: usize) -> (frames: Vec<Frame>)
        ensures
            frames@.len() == if count <= self.remaining().len() {
                count as int
            } else {
                self.remaining().len() as int
            },
            forall|i: int|
                0 <= i < frames@.len() ==> (#[trigger] frames@[i]).wf() && frames@[i].start()
                    == self.remaining()[i],
    {
        proof {
            use_type_invariant(self);
        }
        let mut frames: Vec<Frame> = Vec::new();
        let mut cursor = self.cursor;
        let mut taken: usize = 0;
        while taken < count
            invariant
                taken <= count,
                cursor_inv(self.regions@, cursor),
                frames@.len() == taken,
                taken <= self.remaining().len(),
                frames_ahead(self.regions@, cursor) == self.remaining().skip(taken as int),
                forall|i: int|
                    0 <= i < frames@.len() ==> (#[trigger] frames@[i]).wf() && frames@[i].start()
                        == self.remaining()[i],
            decreases count - taken,
        {
            let next = next_frame(&self.regions, cursor);
            match next.0 {
                Some(frame) => {
                    frames.push(frame);
                    assert(self.remaining().skip(taken as int).skip(1) =~= self.remaining().skip(
                        taken + 1,
                    ));
                    cursor = next.1;
                    taken = taken + 1;
                },
                None => {
                    return frames;
                },
            }
        }
        frames
    }
}

/// Taking the first frame of a region's rest leaves the rest from one page
/// further on.
proof fn lemma_region_frames_step(r: MemoryRegion, next: u64)
    requires
        r.region_type == MemoryRegionType::Usable,
        next < r.end_addr,
        next + 4096 <= u64::MAX,
    ensures
        region_frames_from(r, next).len() > 0,
        region_frames_from(r, next)[0] == crate::addr::align_down(next),
        region_frames_from(r, next).skip(1) == region_frames_from(r, (next + 4096) as u64),
{
    let after = (next + 4096) as u64;
    assert(step_count(next, r.end_addr) == step_count(after, r.end_addr) + 1);
    assert(region_frames_from(r, next).skip(1) =~= region_frames_from(r, after));
}

/// Builds the allocator of the frames that `memory_map` offers.
pub fn init_frame_allocator(memory_map: &MemoryMap) -> (allocator: BootInfoFrameAllocator)
    requires
        regions_addressable(memory_map@),
    ensures
        allocator.remaining() == usable_frames(memory_map@),
{
    let mut regions: Vec<MemoryRegion> = Vec::new();
    let mut i: usize = 0;
    while i < memory_map.len()
        invariant
            i <= memory_map@.len(),
            regions@ == memory_map@.subrange(0, i as int),
        decreases memory_map@.len() - i,
    {
        match memory_map.region(i) {
            Some(region) => {
                regions.push(region);
                assert(regions@ =~= memory_map@.subrange(0, i + 1));
            },
            None => {},
        }
        i = i + 1;
    }
    assert(regions@ =~= memory_map@);
    let start: u64 = if regions.len() > 0 {
        regions[0].start_addr
    } else {
        0
    };
    let allocator = BootInfoFrameAllocator { regions, cursor: Cursor { region: 0, next: start } };
    proof {
        let all = memory_map@;
        if all.len() > 0 {
            assert(all.skip(1) =~= all.subrange(1, all.len() as int));
        }
        assert(allocator.remaining() =~= usable_frames(all));
    }
    allocator
}

/// The physical address of the text screen, to whose frame the example page
/// is mapped.
pub const EXAMPLE_FRAME_ADDRESS: u64 = 0xb8000;

/// The flags of the example mapping: present and writable.
pub const EXAMPLE_FLAGS: u64 = 0x3;

/// The frame of the text screen.
pub open spec fn spec_example_frame() -> Frame {
    Frame::spec_from_start(EXAMPLE_FRAME_ADDRESS)
}

/// The bits of `PRESENT | WRITABLE` of
/// `x86_64::structures::paging::PageTableFlags`: bit 0 says present, bit 1
/// says writable, so the two together are 3.
#[verifier::external_body]
fn present_and_writable() -> (bits: u64)
    ensures
        bits == 0x3,
{
    let present = x86_64::structures::paging::PageTableFlags::PRESENT;
    let writable = x86_64::structures::paging::PageTableFlags::WRITABLE;
    (present | writable).bits()
}

/// The virtual address at which the active root table is reached: the
/// address of the frame that the processor names as holding it, seen through
/// the window at which all physical memory is mapped.
pub fn active_level_4_table(physical_memory_offset: u64, level_4_table_frame: Frame) -> (addr: u64)
    requires
        in_window(physical_memory_offset, level_4_table_frame.start()),
    ensures
        addr == level_4_table_frame.start() + physical_memory_offset,
{
    phys_to_virt(physical_memory_offset, level_4_table_frame)
}

/// The mapper over the active page tables: those in `memory`, under the root
/// table in `level_4_table_frame`, with all physical memory mapped at
/// `physical_memory_offset`. The mapper takes the memory over, so there is
/// one mapper for it.
pub fn init(physical_memory_offset: u64, level_4_table_frame: Frame, memory: PageTableMemory) -> (mapper:
    MappedPageTable)
    requires
        memory.wf(),
        memory@.contains_key(level_4_table_frame.start()),
        memory@[level_4_table_frame.start()].level == PageTableLevel::Four,
        forall|frame: u64| #[trigger]
            memory@.contains_key(frame) ==> in_window(physical_memory_offset, frame),
    ensures
        mapper.wf(),
        mapper@ == memory@,
        mapper.root() == level_4_table_frame.start(),
        mapper.offset() == physical_memory_offset,
        mapper.root_addr() == level_4_table_frame.start() + physical_memory_offset,
{
    MappedPageTable::new(memory, level_4_table_frame, physical_memory_offset)
}

/// Maps `page` to the frame of the text screen, present and writable. See
/// `MappedPageTable::map_to` for what a mapping does; on success the
/// processor's cached translation of the page has to be invalidated, which
/// the result asks for.
pub fn create_example_mapping(
    page: Page,
    mapper: &mut MappedPageTable,
    frame_allocator: &mut BootInfoFrameAllocator,
) -> (result: Result<MapperFlush, MapToError>)
    requires
        old(mapper).wf(),
        old(mapper).accepts(old(frame_allocator).remaining(), 3),
    ensures
        final(mapper).wf(),
        final(mapper).root() == old(mapper).root(),
        final(mapper).root_addr() == old(mapper).root_addr(),
        final(mapper).offset() == old(mapper).offset(),
        (MapState { tables: final(mapper)@, frames: final(frame_allocator).remaining() }, match result {
            Ok(_) => Ok::<(), MapToError>(()),
            Err(e) => Err::<(), MapToError>(e),
        }) == spec_map_to(
            MapState { tables: old(mapper)@, frames: old(frame_allocator).remaining() },
            old(mapper).root(),
            page.start(),
            spec_example_frame(),
            EXAMPLE_FLAGS,
        ),
        result matches Ok(flush) ==> flush.spec_page() == page,
        (match result {
            Ok(_) => Ok::<(), MapToError>(()),
            Err(e) => Err::<(), MapToError>(e),
        }) == spec_map_result(
            spec_walk(old(mapper)@, old(mapper).root(), page.start()),
            old(frame_allocator).remaining().len(),
            spec_example_frame(),
        ),
        final(frame_allocator).remaining() == old(frame_allocator).remaining().skip(
            spec_frames_taken(
                spec_walk(old(mapper)@, old(mapper).root(), page.start()),
                old(frame_allocator).remaining().len(),
            ) as int,
        ),
        result is Ok ==> spec_translate(final(mapper)@, final(mapper).root(), page.start()) == Ok::<
            u64,
            TranslateError,
        >(EXAMPLE_FRAME_ADDRESS),
        forall|count: nat|
            old(mapper).accepts(old(frame_allocator).remaining(), count + 3) ==> #[trigger] final(mapper).accepts(
                final(frame_allocator).remaining(),
                count,
            ),
{
    let frame = Frame::containing_address(EXAMPLE_FRAME_ADDRESS);
    let flags: u64 = present_and_writable();
    proof {
        frame.lemma_from_start();
        assert(0x3u64 & 0x000f_ffff_ffff_f000 == 0 && 0x3u64 & 0x1 != 0 && 0x3u64 & 0x80 == 0)
            by (bit_vector);
    }
    mapper.map_to(page, frame, flags, frame_allocator)
}

} // verus!
