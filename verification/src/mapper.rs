//! The mapper: it walks the page tables from the root, installs new mappings
//! and looks mappings up.

use vstd::prelude::*;
use crate::addr::{
    Frame,
    is_canonical,
    Page,
    PageTableLevel,
    spec_page_table_index,
    virt_addr_accepted,
};
use crate::mapping::{
    among_first,
    frames_fresh,
    level_below,
    MapState,
    MapToError,
    spec_create_next_table,
    spec_frames_taken,
    spec_map_from,
    spec_map_result,
    spec_map_to,
    spec_next_table,
    spec_translate,
    spec_translate_from,
    spec_walk,
    spec_walk_path,
    TranslateError,
};
use crate::mapping_proofs::{
    lemma_map_from,
    lemma_parent_table_flags,
    lemma_present_entry_leads_on,
    lemma_step_keeps_fresh,
    lemma_step_tables,
};
use crate::memory::{
    BootInfoFrameAllocator,
};
use crate::page_table::{
    ADDRESS_MASK,
    entry_linked,
    entry_target,
    HUGE_PAGE,
    is_flags,
    is_huge,
    is_present,
    lemma_entry_address_is_frame,
    lemma_entry_of_frame,
    lemma_entry_with_flags,
    lemma_with_entry_wf,
    lemma_with_table_wf,
    PageTableMemory,
    PRESENT,
    table_wf,
    tables_wf,
    TableView,
    USER_ACCESSIBLE,
    with_entry,
    with_table,
    WRITABLE,
};

verus! {

/// Whether the frame at `frame` can be reached through the window at which
/// all physical memory is mapped: the frame's address plus the window's
/// offset is a canonical virtual address.
pub open spec fn in_window(physical_memory_offset: u64, frame: u64) -> bool {
    frame + physical_memory_offset <= u64::MAX && is_canonical(
        (frame + physical_memory_offset) as u64,
    )
}

/// Whether `frames`, as far as the first `count` go, lie in the window at
/// which physical memory is mapped.
pub open spec fn frames_in_window(physical_memory_offset: u64, frames: Seq<u64>, count: nat) -> bool {
    forall|i: int|
        0 <= i < frames.len() && i < count ==> in_window(physical_memory_offset, #[trigger] frames[i])
}

/// The virtual address at which the window shows the frame `frame`, or
/// `None` if the frame does not lie in the window.
pub fn try_phys_to_virt(physical_memory_offset: u64, frame: Frame) -> (virt: Option<u64>)
    ensures
        virt == if in_window(physical_memory_offset, frame.start()) {
            Some((frame.start() + physical_memory_offset) as u64)
        } else {
            None::<u64>
        },
{
    match frame.start_address().checked_add(physical_memory_offset) {
        Some(addr) => if virt_addr_accepted(addr) {
            Some(addr)
        } else {
            None
        },
        None => None,
    }
}

/// The virtual address at which the window shows the frame `frame`: the
/// frame's physical address plus the window's offset.
pub fn phys_to_virt(physical_memory_offset: u64, frame: Frame) -> (virt: u64)
    requires
        in_window(physical_memory_offset, frame.start()),
    ensures
        virt == frame.start() + physical_memory_offset,
{
    frame.start_address() + physical_memory_offset
}

/// The promise that comes with a new mapping: the processor's cached
/// translation of the page has to be invalidated before the mapping is used.
#[derive(Clone, Copy, Debug, PartialEq, Eq, Structural)]
pub struct MapperFlush {
    page: Page,
}

impl MapperFlush {
    /// The page whose cached translation is to be invalidated.
    pub closed spec fn spec_page(self) -> Page {
        self.page
    }

    /// The promise to invalidate the cached translation of `page`.
    pub(crate) fn new(page: Page) -> (flush: MapperFlush)
        ensures
            flush.spec_page() == page,
    {
        MapperFlush { page }
    }

    /// The page whose cached translation is to be invalidated.
    pub fn page(&self) -> (page: Page)
        ensures
            page == self.spec_page(),
    {
        self.page
    }
}

/// The page tables of one address space: the memory that holds them, the
/// frame of the root table, and the offset of the window at which physical
/// memory is mapped.
pub struct MappedPageTable {
    memory: PageTableMemory,
    level_4_frame: Frame,
    level_4_table_addr: u64,
    physical_memory_offset: u64,
}

impl View for MappedPageTable {
    type V = Map<u64, TableView>;

    closed spec fn view(&self) -> Map<u64, TableView> {
        self.memory@
    }
}

impl MappedPageTable {
    /// The start of the frame that holds the root table.
    pub closed spec fn root(&self) -> u64 {
        self.level_4_frame.start()
    }

    /// The offset of the window at which physical memory is mapped.
    pub closed spec fn offset(&self) -> u64 {
        self.physical_memory_offset
    }

    /// The virtual address at which the root table is reached.
    pub closed spec fn root_addr(&self) -> u64 {
        self.level_4_table_addr
    }

    /// Whether the mapper is sound: its tables are, the root frame holds a
    /// table of level four that is reached at the frame's place in the
    /// window, and each table lies in the window.
    pub open spec fn wf(&self) -> bool {
        &&& tables_wf(self@)
        &&& self.root_addr() == self.root() + self.offset()
        &&& self@.contains_key(self.root())
        &&& self@[self.root()].level == PageTableLevel::Four
        &&& forall|frame: u64| #[trigger] self@.contains_key(frame) ==> in_window(self.offset(), frame)
    }

    /// The mapper for the tables in `memory` under the root table in
    /// `level_4_frame`, with physical memory mapped at `physical_memory_offset`.
    pub(crate) fn new(memory: PageTableMemory, level_4_frame: Frame, physical_memory_offset: u64) -> (mapper:
        MappedPageTable)
        requires
            memory.wf(),
            memory@.contains_key(level_4_frame.start()),
            memory@[level_4_frame.start()].level == PageTableLevel::Four,
            forall|frame: u64| #[trigger]
                memory@.contains_key(frame) ==> in_window(physical_memory_offset, frame),
        ensures
            mapper.wf(),
            mapper@ == memory@,
            mapper.root() == level_4_frame.start(),
            mapper.offset() == physical_memory_offset,
    {
        let level_4_table_addr: u64 = phys_to_virt(physical_memory_offset, level_4_frame);
        MappedPageTable { memory, level_4_frame, level_4_table_addr, physical_memory_offset }
    }

    /// The virtual address at which the root table is reached.
    pub fn level_4_table_addr(&self) -> (addr: u64)
        ensures
            addr == self.root_addr(),
    {
        self.level_4_table_addr
    }

    /// The frame that holds the root table.
    pub fn level_4_frame(&self) -> (frame: Frame)
        ensures
            frame.start() == self.root(),
    {
        self.level_4_frame
    }

    /// The offset of the window at which physical memory is mapped.
    pub fn physical_memory_offset(&self) -> (offset: u64)
        ensures
            offset == self.offset(),
    {
        self.physical_memory_offset
    }

    /// The memory that holds the tables.
    pub fn memory(&self) -> (memory: &PageTableMemory)
        ensures
            memory@ == self@,
    {
        &self.memory
    }

    /// The frame that entry `index` of the table in `table` leads to.
    fn next_table(&self, table: u64, index: usize) -> (next: Result<u64, TranslateError>)
        requires
            tables_wf(self@),
            self@.contains_key(table),
            index < 512,
        ensures
            next == spec_next_table(self@, table, index as int),
    {
        assert(table_wf(self@, table));
        let entry: u64 = self.memory.read_entry(table, index);
        if entry & PRESENT == 0 {
            Err(TranslateError::PageNotMapped)
        } else if entry & HUGE_PAGE != 0 {
            Err(TranslateError::ParentEntryHugePage)
        } else {
            Ok(entry & ADDRESS_MASK)
        }
    }

    /// The frame that `page` is mapped to, or why it has none.
    pub fn translate_page(&self, page: Page) -> (result: Result<Frame, TranslateError>)
        requires
            self.wf(),
        ensures
            match result {
                Ok(frame) => frame.wf() && spec_translate(self@, self.root(), page.start()) == Ok::<
                    u64,
                    TranslateError,
                >(frame.start()),
                Err(e) => spec_translate(self@, self.root(), page.start()) == Err::<
                    u64,
                    TranslateError,
                >(e),
            },
    {
        reveal_with_fuel(spec_translate_from, 4);
        let ghost tables = self@;
        let root: u64 = self.level_4_frame.start_address();
        let table_3 = match self.next_table(root, page.table_index(PageTableLevel::Four)) {
            Ok(table) => table,
            Err(e) => {
                return Err(e);
            },
        };
        proof {
            lemma_present_entry_leads_on(
                tables,
                root,
                spec_page_table_index(page.start(), PageTableLevel::Four) as int,
            );
        }
        let table_2 = match self.next_table(table_3, page.table_index(PageTableLevel::Three)) {
            Ok(table) => table,
            Err(e) => {
                return Err(e);
            },
        };
        proof {
            lemma_present_entry_leads_on(
                tables,
                table_3,
                spec_page_table_index(page.start(), PageTableLevel::Three) as int,
            );
        }
        let table_1 = match self.next_table(table_2, page.table_index(PageTableLevel::Two)) {
            Ok(table) => table,
            Err(e) => {
                return Err(e);
            },
        };
        proof {
            lemma_present_entry_leads_on(
                tables,
                table_2,
                spec_page_table_index(page.start(), PageTableLevel::Two) as int,
            );
            assert(table_wf(tables, table_1));
        }
        let entry: u64 = self.memory.read_entry(table_1, page.table_index(PageTableLevel::One));
        if entry == 0 {
            return Err(TranslateError::PageNotMapped);
        }
        proof {
            lemma_entry_address_is_frame(entry);
        }
        Ok(Frame::containing_address(entry & ADDRESS_MASK))
    }
}

/// One step down on the way to a page that is being mapped: see
/// `spec_create_next_table`.
pub(crate) fn create_next_table(
    memory: &mut PageTableMemory,
    table: u64,
    index: usize,
    flags: u64,
    allocator: &mut BootInfoFrameAllocator,
) -> (next: Result<u64, MapToError>)
    requires
        old(memory).wf(),
        old(memory)@.contains_key(table),
        old(memory)@[table].level != PageTableLevel::One,
        index < 512,
        is_flags(flags),
        flags & HUGE_PAGE == 0,
        is_present(flags),
        frames_fresh(old(memory)@, old(allocator).remaining(), 1),
    ensures
        final(memory).wf(),
        (MapState { tables: final(memory)@, frames: final(allocator).remaining() }, next)
            == spec_create_next_table(
            MapState { tables: old(memory)@, frames: old(allocator).remaining() },
            table,
            index as int,
            flags,
        ),
        next matches Ok(below) ==> final(memory)@.contains_key(below) && final(memory)@[below].level
            == level_below(old(memory)@[table].level),
{
    let ghost tables = memory@;
    let ghost level = tables[table].level;
    assert(table_wf(tables, table));
    let entry: u64 = memory.read_entry(table, index);
    if entry == 0 {
        match allocator.allocate_frame() {
            None => Err(MapToError::FrameAllocationFailed),
            Some(frame) => {
                let start: u64 = frame.start_address();
                let lower = match memory.level_of(table).next_lower_level() {
                    Some(lower) => lower,
                    None => PageTableLevel::One,
                };
                assert(start == old(allocator).remaining()[0]);
                assert(!tables.contains_key(start));
                memory.write_entry(table, index, start | flags);
                memory.add_table(start, lower);
                proof {
                    lemma_entry_of_frame(start, flags);
                    assert(flags != 0) by (bit_vector)
                        requires
                            flags & 0x1 != 0,
                    ;
                    let cleared = with_table(tables, start, lower);
                    lemma_with_table_wf(tables, start, lower);
                    lemma_with_entry_wf(cleared, table, index as int, start | flags);
                    assert(memory@ =~= with_entry(cleared, table, index as int, start | flags));
                }
                Ok(start)
            },
        }
    } else {
        let updated: u64 = entry | flags;
        proof {
            lemma_entry_with_flags(entry, flags);
            assert(entry_linked(tables, level, entry));
            lemma_with_entry_wf(tables, table, index as int, updated);
        }
        memory.write_entry(table, index, updated);
        if updated & HUGE_PAGE != 0 {
            Err(MapToError::ParentEntryHugePage)
        } else {
            Ok(updated & ADDRESS_MASK)
        }
    }
}

impl MappedPageTable {
    /// Whether the allocator's next `count` frames may take new tables of
    /// this mapper: none of them holds a table, no two of them are the same,
    /// and each lies in the window at which physical memory is mapped.
    pub open spec fn accepts(&self, frames: Seq<u64>, count: nat) -> bool {
        frames_fresh(self@, frames, count) && frames_in_window(self.offset(), frames, count)
    }

    /// One step down on the way to a page that is being mapped, keeping the
    /// mapper sound.
    fn step_down(
        &mut self,
        table: u64,
        index: usize,
        flags: u64,
        allocator: &mut BootInfoFrameAllocator,
        Ghost(count): Ghost<nat>,
    ) -> (next: Result<u64, MapToError>)
        requires
            old(self).wf(),
            old(self)@.contains_key(table),
            old(self)@[table].level != PageTableLevel::One,
            index < 512,
            is_flags(flags),
            flags & HUGE_PAGE == 0,
            is_present(flags),
            count >= 1,
            old(self).accepts(old(allocator).remaining(), count),
        ensures
            final(self).wf(),
            final(self).root() == old(self).root(),
            final(self).root_addr() == old(self).root_addr(),
            final(self).offset() == old(self).offset(),
            (MapState { tables: final(self)@, frames: final(allocator).remaining() }, next)
                == spec_create_next_table(
                MapState { tables: old(self)@, frames: old(allocator).remaining() },
                table,
                index as int,
                flags,
            ),
            final(self).accepts(final(allocator).remaining(), (count - 1) as nat),
            next matches Ok(below) ==> final(self)@.contains_key(below) && Some(
                final(self)@[below].level,
            ) == old(self)@[table].level.spec_next_lower_level(),
    {
        let ghost before = MapState { tables: self@, frames: allocator.remaining() };
        let next = create_next_table(&mut self.memory, table, index, flags, allocator);
        proof {
            lemma_step_keeps_fresh(before, table, index as int, flags, count);
            let after = MapState { tables: self@, frames: allocator.remaining() };
            assert forall|frame: u64| #[trigger] self@.contains_key(frame) implies in_window(
                self.offset(),
                frame,
            ) by {
                lemma_step_tables(before, table, index as int, flags, frame);
                if !before.tables.contains_key(frame) {
                    assert(frame == before.frames[0]);
                }
            }
            assert forall|i: int| 0 <= i < after.frames.len() && i < count - 1 implies in_window(
                self.offset(),
                #[trigger] after.frames[i],
            ) by {
                lemma_step_tables(before, table, index as int, flags, 0);
                if after.frames != before.frames {
                    assert(after.frames[i] == before.frames[i + 1]);
                }
            }
            lemma_step_tables(before, table, index as int, flags, self.root());
        }
        next
    }
}

impl MappedPageTable {
    /// Maps `page` to `frame` with `flags`. Walks the tables from the root
    /// down; a table that is missing on the way is put into the allocator's
    /// next frame, cleared, and linked with those of `flags` that say
    /// present, writable and open to users; a table that is there gets these
    /// flags added to its entry. Then the page's entry is set to the frame
    /// and the flags.
    ///
    /// Fails without a frame for a missing table, at an entry on the way that
    /// maps a huge frame, and at a page whose entry is in use. What was done
    /// on the way down stays done.
    pub fn map_to(
        &mut self,
        page: Page,
        frame: Frame,
        flags: u64,
        allocator: &mut BootInfoFrameAllocator,
    ) -> (result: Result<MapperFlush, MapToError>)
        requires
            old(self).wf(),
            is_flags(flags),
            is_present(flags),
            !is_huge(flags),
            old(self).accepts(old(allocator).remaining(), 3),
        ensures
            final(self).wf(),
            final(self).root() == old(self).root(),
            final(self).root_addr() == old(self).root_addr(),
            final(self).offset() == old(self).offset(),
            (MapState { tables: final(self)@, frames: final(allocator).remaining() }, match result {
                Ok(_) => Ok::<(), MapToError>(()),
                Err(e) => Err::<(), MapToError>(e),
            }) == spec_map_to(
                MapState { tables: old(self)@, frames: old(allocator).remaining() },
                old(self).root(),
                page.start(),
                frame,
                flags,
            ),
            result matches Ok(flush) ==> flush.spec_page() == page,
            (match result {
                Ok(_) => Ok::<(), MapToError>(()),
                Err(e) => Err::<(), MapToError>(e),
            }) == spec_map_result(
                spec_walk(old(self)@, old(self).root(), page.start()),
                old(allocator).remaining().len(),
                frame,
            ),
            final(allocator).remaining() == old(allocator).remaining().skip(
                spec_frames_taken(
                    spec_walk(old(self)@, old(self).root(), page.start()),
                    old(allocator).remaining().len(),
                ) as int,
            ),
            result is Ok ==> spec_translate(final(self)@, final(self).root(), page.start()) == Ok::<
                u64,
                TranslateError,
            >(frame.start()),
            forall|count: nat|
                old(self).accepts(old(allocator).remaining(), count + 3) ==> #[trigger] final(self).accepts(
                    final(allocator).remaining(),
                    count,
                ),
    {
        reveal_with_fuel(spec_map_from, 4);
        let parent_flags: u64 = flags & (PRESENT | WRITABLE | USER_ACCESSIBLE);
        let start: u64 = frame.start_address();
        allocator.remaining_are_frames();
        let ghost before = MapState { tables: self@, frames: allocator.remaining() };
        let ghost walk = spec_walk(self@, self.root(), page.start());
        let ghost taken = spec_frames_taken(walk, before.frames.len());
        proof {
            lemma_parent_table_flags(flags);
            lemma_map_from(before, self.root(), PageTableLevel::Four, page.start(), frame, flags);
            let out = spec_map_to(before, self.root(), page.start(), frame, flags).0;
            assert forall|count: nat| old(self).accepts(before.frames, count + 3) implies frames_fresh(
                out.tables,
                out.frames,
                count,
            ) && frames_in_window(self.offset(), out.frames, count) by {
                assert forall|i: int| 0 <= i < out.frames.len() && i < count implies !out.tables.contains_key(
                    #[trigger] out.frames[i],
                ) && in_window(self.offset(), out.frames[i]) by {
                    assert(out.frames[i] == before.frames[i + taken]);
                    if among_first(before.frames, taken, out.frames[i]) {
                        let j = choose|j: int|
                            0 <= j < taken && j < before.frames.len() && before.frames[j]
                                == out.frames[i];
                        assert(before.frames[j] != before.frames[i + taken]);
                    }
                }
                assert forall|i: int, j: int|
                    0 <= i < j < out.frames.len() && j < count implies #[trigger] out.frames[i]
                    != #[trigger] out.frames[j] by {
                    assert(out.frames[i] == before.frames[i + taken]);
                    assert(out.frames[j] == before.frames[j + taken]);
                }
            }
        }
        let root: u64 = self.level_4_frame.start_address();
        let table_3 = match self.step_down(
            root,
            page.table_index(PageTableLevel::Four),
            parent_flags,
            allocator,
            Ghost(3),
        ) {
            Ok(table) => table,
            Err(e) => {
                return Err(e);
            },
        };
        let table_2 = match self.step_down(
            table_3,
            page.table_index(PageTableLevel::Three),
            parent_flags,
            allocator,
            Ghost(2),
        ) {
            Ok(table) => table,
            Err(e) => {
                return Err(e);
            },
        };
        let table_1 = match self.step_down(
            table_2,
            page.table_index(PageTableLevel::Two),
            parent_flags,
            allocator,
            Ghost(1),
        ) {
            Ok(table) => table,
            Err(e) => {
                return Err(e);
            },
        };
        let index: usize = page.table_index(PageTableLevel::One);
        assert(table_wf(self@, table_1));
        let entry: u64 = self.memory.read_entry(table_1, index);
        if entry != 0 {
            return Err(MapToError::PageAlreadyMapped(frame));
        }
        proof {
            lemma_with_entry_wf(self@, table_1, index as int, start | flags);
        }
        self.memory.write_entry(table_1, index, start | flags);
        Ok(MapperFlush::new(page))
    }
}

impl MappedPageTable {
    /// Whether the next three frames of `allocator` may take new tables of
    /// this mapper, as a mapping asks.
    pub fn accepts_frames_of(&self, allocator: &BootInfoFrameAllocator) -> (accepted: bool)
        ensures
            accepted == self.accepts(allocator.remaining(), 3),
    {
        let frames = allocator.upcoming_frames(3);
        let ghost remaining = allocator.remaining();
        let mut i: usize = 0;
        while i < frames.len()
            invariant
                i <= frames@.len(),
                remaining == allocator.remaining(),
                frames@.len() == if 3 <= remaining.len() {
                    3
                } else {
                    remaining.len() as int
                },
                forall|k: int|
                    0 <= k < frames@.len() ==> (#[trigger] frames@[k]).wf() && frames@[k].start()
                        == remaining[k],
                forall|k: int| 0 <= k < i ==> !self@.contains_key(#[trigger] remaining[k]),
                forall|k: int| 0 <= k < i ==> in_window(self.offset(), #[trigger] remaining[k]),
                forall|k: int, l: int| 0 <= k < l < i ==> #[trigger] remaining[k] != #[trigger] remaining[l],
            decreases frames@.len() - i,
        {
            let frame = frames[i];
            assert(frame.start() == remaining[i as int]);
            if self.memory.contains(frame) {
                return false;
            }
            if try_phys_to_virt(self.physical_memory_offset, frame).is_none() {
                return false;
            }
            let mut j: usize = 0;
            while j < i
                invariant
                    j <= i < frames@.len(),
                    frames@.len() <= 3,
                    frames@.len() <= remaining.len(),
                    remaining == allocator.remaining(),
                    frame.start() == remaining[i as int],
                    forall|k: int|
                        0 <= k < frames@.len() ==> (#[trigger] frames@[k]).wf() && frames@[k].start()
                            == remaining[k],
                    forall|k: int| 0 <= k < j ==> #[trigger] remaining[k] != remaining[i as int],
                decreases i - j,
            {
                if frames[j].start_address() == frame.start_address() {
                    assert(remaining[j as int] == remaining[i as int]);
                    return false;
                }
                j = j + 1;
            }
            i = i + 1;
        }
        true
    }

    /// The frames of the tables that the walk to `page` goes through, from
    /// the root down, as far as it goes on. These are the tables that a
    /// mapping of the page has written to.
    pub fn walk_path(&self, page: Page) -> (path: Vec<Frame>)
        requires
            self.wf(),
        ensures
            path@.len() == spec_walk_path(self@, self.root(), PageTableLevel::Four, page.start()).len(),
            forall|i: int|
                0 <= i < path@.len() ==> (#[trigger] path@[i]).wf() && path@[i].start()
                    == spec_walk_path(self@, self.root(), PageTableLevel::Four, page.start())[i],
    {
        reveal_with_fuel(spec_walk_path, 4);
        let mut path: Vec<Frame> = Vec::new();
        let mut table = self.level_4_frame;
        let mut level = PageTableLevel::Four;
        let ghost whole = spec_walk_path(self@, self.root(), PageTableLevel::Four, page.start());
        loop
            invariant_except_break
                path@.len() + spec_walk_path(self@, table.start(), level, page.start()).len()
                    == whole.len(),
                forall|i: int|
                    0 <= i < spec_walk_path(self@, table.start(), level, page.start()).len()
                        ==> #[trigger] whole[path@.len() + i] == spec_walk_path(
                        self@,
                        table.start(),
                        level,
                        page.start(),
                    )[i],
            invariant
                self.wf(),
                table.wf(),
                self@.contains_key(table.start()),
                self@[table.start()].level == level,
                whole == spec_walk_path(self@, self.root(), PageTableLevel::Four, page.start()),
                forall|i: int|
                    0 <= i < path@.len() ==> (#[trigger] path@[i]).wf() && path@[i].start()
                        == whole[i],
            ensures
                path@.len() == whole.len(),
                forall|i: int|
                    0 <= i < path@.len() ==> (#[trigger] path@[i]).wf() && path@[i].start()
                        == whole[i],
            decreases level.number(),
        {
            let ghost rest = spec_walk_path(self@, table.start(), level, page.start());
            assert(rest[0] == table.start());
            assert(whole[path@.len() as int + 0] == rest[0]);
            path.push(table);
            let lower = match level.next_lower_level() {
                Some(lower) => lower,
                None => {
                    break ;
                },
            };
            assert(table_wf(self@, table.start()));
            let entry: u64 = self.memory.read_entry(table.start_address(), page.table_index(level));
            let next = match entry_target(entry) {
                Some(next) => next,
                None => {
                    break ;
                },
            };
            proof {
                next.lemma_from_start();
                let below = spec_walk_path(self@, next.start(), lower, page.start());
                assert(rest =~= seq![table.start()] + below);
                assert forall|i: int| 0 <= i < below.len() implies #[trigger] whole[path@.len() + i]
                    == below[i] by {
                    assert(whole[(path@.len() as int - 1) + (i + 1)] == rest[i + 1]);
                }
            }
            table = next;
            level = lower;
        }
        path
    }
}

} // verus!
