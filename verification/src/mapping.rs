//! What mapping a page and looking a page up are: the walk through the
//! tables from the root down, stated over the tables as they are held by
//! frame.

use vstd::prelude::*;
use crate::addr::{
    align_down,
    Frame,
    is_frame,
    PageTableLevel,
    spec_page_table_index,
};
use crate::page_table::{
    entry_address,
    is_huge,
    is_present,
    leads_to_table,
    PRESENT,
    TableView,
    USER_ACCESSIBLE,
    with_entry,
    with_table,
    WRITABLE,
};

verus! {

/// Why a page could not be mapped.
#[derive(Clone, Copy, Debug, PartialEq, Eq, Structural)]
pub enum MapToError {
    /// A table on the way was missing, and the allocator had no frame for it.
    FrameAllocationFailed,
    /// An entry on the way maps a huge frame, so the page is part of it.
    ParentEntryHugePage,
    /// The page's entry is in use. Holds the frame that was to be mapped.
    PageAlreadyMapped(Frame),
}

/// Why a page has no frame.
#[derive(Clone, Copy, Debug, PartialEq, Eq, Structural)]
pub enum TranslateError {
    /// No frame is mapped to the page.
    PageNotMapped,
    /// An entry on the way maps a huge frame, so the page is part of it.
    ParentEntryHugePage,
}

/// The flags that the tables on the way to a page get: those of the page's
/// own flags that say present, writable and open to users.
pub open spec fn parent_table_flags(flags: u64) -> u64 {
    flags & (PRESENT | WRITABLE | USER_ACCESSIBLE)
}

/// What a mapping works on: the page tables, and the frames that the
/// allocator has yet to hand out.
pub ghost struct MapState {
    /// The page tables, by the frame that holds each.
    pub tables: Map<u64, TableView>,
    /// The frames to come from the allocator, in its order.
    pub frames: Seq<u64>,
}

/// The level below `level`, and level one for level one.
pub open spec fn level_below(level: PageTableLevel) -> PageTableLevel {
    match level.spec_next_lower_level() {
        Some(lower) => lower,
        None => level,
    }
}

/// One step down on the way to a page that is being mapped, through entry
/// `index` of the table in `table`. An unused entry gets the allocator's next
/// frame, with `flags`, and the frame gets a cleared table; without a frame
/// the step fails. An entry in use gets `flags` added; if it maps a huge
/// frame the step fails. The step gives the tables and frames as it leaves
/// them, and the frame of the table below.
pub open spec fn spec_create_next_table(s: MapState, table: u64, index: int, flags: u64) -> (
    MapState,
    Result<u64, MapToError>,
) {
    let entry = s.tables[table].entries[index];
    if entry == 0 {
        if s.frames.len() == 0 {
            (s, Err(MapToError::FrameAllocationFailed))
        } else {
            let frame = s.frames[0];
            let linked = with_entry(s.tables, table, index, frame | flags);
            let cleared = with_table(linked, frame, level_below(s.tables[table].level));
            (MapState { tables: cleared, frames: s.frames.skip(1) }, Ok(frame))
        }
    } else {
        let updated = entry | flags;
        let after = MapState { tables: with_entry(s.tables, table, index, updated), frames: s.frames };
        if is_huge(updated) {
            (after, Err(MapToError::ParentEntryHugePage))
        } else {
            (after, Ok(entry_address(updated)))
        }
    }
}

/// Mapping `page` to `frame` with `flags`, from the table of `level` in
/// `table` downwards: above level one a step down and then the same from the
/// table below; at level one the page's entry is set to the frame's address
/// and the flags, unless it is in use.
pub open spec fn spec_map_from(
    s: MapState,
    table: u64,
    level: PageTableLevel,
    page: u64,
    frame: Frame,
    flags: u64,
) -> (MapState, Result<(), MapToError>)
    decreases level.number(),
{
    let index = spec_page_table_index(page, level) as int;
    match level.spec_next_lower_level() {
        None => {
            if s.tables[table].entries[index] != 0 {
                (s, Err(MapToError::PageAlreadyMapped(frame)))
            } else {
                (
                    MapState {
                        tables: with_entry(s.tables, table, index, frame.start() | flags),
                        frames: s.frames,
                    },
                    Ok(()),
                )
            }
        },
        Some(lower) => {
            let step = spec_create_next_table(s, table, index, parent_table_flags(flags));
            match step.1 {
                Err(e) => (step.0, Err(e)),
                Ok(next) => spec_map_from(step.0, next, lower, page, frame, flags),
            }
        },
    }
}

/// Mapping `page` to `frame` with `flags` in the tables under the root in
/// `root`: what becomes of the tables and of the allocator's frames, and
/// whether the page got mapped.
pub open spec fn spec_map_to(s: MapState, root: u64, page: u64, frame: Frame, flags: u64) -> (
    MapState,
    Result<(), MapToError>,
) {
    spec_map_from(s, root, PageTableLevel::Four, page, frame, flags)
}

/// Whether the first `count` of `frames` may take new tables: none of them
/// holds a table, and no two of them are the same.
pub open spec fn frames_fresh(tables: Map<u64, TableView>, frames: Seq<u64>, count: nat) -> bool {
    &&& forall|i: int|
        0 <= i < frames.len() && i < count ==> !tables.contains_key(#[trigger] frames[i])
    &&& forall|i: int, j: int|
        0 <= i < j < frames.len() && j < count ==> #[trigger] frames[i] != #[trigger] frames[j]
}

/// Whether the first `count` of `frames` are frames: page-aligned physical
/// addresses.
pub open spec fn are_frames(frames: Seq<u64>, count: nat) -> bool {
    forall|i: int| 0 <= i < frames.len() && i < count ==> is_frame(#[trigger] frames[i])
}

/// Whether `frame` is among the first `count` of `frames`.
pub open spec fn among_first(frames: Seq<u64>, count: nat, frame: u64) -> bool {
    exists|i: int| 0 <= i < count && i < frames.len() && #[trigger] frames[i] == frame
}

/// What a walk from a table down to a page's entry meets, in tables as they
/// are.
pub ghost enum Walk {
    /// An unused entry above level one: this many tables are missing.
    MissingTables(nat),
    /// An entry above level one that maps a huge frame.
    HugePage,
    /// All tables are there, and the page's entry is unused.
    Unmapped,
    /// All tables are there, and the page's entry is in use.
    Mapped,
}

/// What the walk to `page` meets from the table of `level` in `table` on.
pub open spec fn spec_walk_from(
    tables: Map<u64, TableView>,
    table: u64,
    level: PageTableLevel,
    page: u64,
) -> Walk
    decreases level.number(),
{
    let entry = tables[table].entries[spec_page_table_index(page, level) as int];
    match level.spec_next_lower_level() {
        None => if entry == 0 {
            Walk::Unmapped
        } else {
            Walk::Mapped
        },
        Some(lower) => if entry == 0 {
            Walk::MissingTables((level.number() - 1) as nat)
        } else if is_huge(entry) {
            Walk::HugePage
        } else {
            spec_walk_from(tables, entry_address(entry), lower, page)
        },
    }
}

/// What the walk to `page` meets from the root table in `root` on.
pub open spec fn spec_walk(tables: Map<u64, TableView>, root: u64, page: u64) -> Walk {
    spec_walk_from(tables, root, PageTableLevel::Four, page)
}

/// How a mapping ends, given what the walk to the page meets and how many
/// frames the allocator has left: at a page in use and at a huge frame it
/// fails; at an unused entry it succeeds; where tables are missing it
/// succeeds if the allocator has a frame for each, and fails if not.
pub open spec fn spec_map_result(walk: Walk, available: nat, frame: Frame) -> Result<(), MapToError> {
    match walk {
        Walk::Mapped => Err(MapToError::PageAlreadyMapped(frame)),
        Walk::HugePage => Err(MapToError::ParentEntryHugePage),
        Walk::Unmapped => Ok(()),
        Walk::MissingTables(missing) => if missing <= available {
            Ok(())
        } else {
            Err(MapToError::FrameAllocationFailed)
        },
    }
}

/// How many of the allocator's frames a mapping takes, given what the walk
/// to the page meets and how many frames the allocator has left: one for
/// each missing table, as far as the frames go.
pub open spec fn spec_frames_taken(walk: Walk, available: nat) -> nat {
    match walk {
        Walk::MissingTables(missing) => if missing <= available {
            missing
        } else {
            available
        },
        _ => 0,
    }
}

/// Whether `page` is mapped from the table of `level` in `table` on, with
/// each entry on the way holding `parent_flags`.
pub open spec fn spec_mapped_with(
    tables: Map<u64, TableView>,
    table: u64,
    level: PageTableLevel,
    page: u64,
    parent_flags: u64,
) -> bool
    decreases level.number(),
{
    let entry = tables[table].entries[spec_page_table_index(page, level) as int];
    match level.spec_next_lower_level() {
        None => entry != 0,
        Some(lower) => {
            &&& entry != 0
            &&& !is_huge(entry)
            &&& entry | parent_flags == entry
            &&& spec_mapped_with(tables, entry_address(entry), lower, page, parent_flags)
        },
    }
}

/// The frame that entry `index` of the table in `table` leads to when a page
/// is looked up: none if the entry is not present, and none if it maps a huge
/// frame.
pub open spec fn spec_next_table(tables: Map<u64, TableView>, table: u64, index: int) -> Result<
    u64,
    TranslateError,
> {
    let entry = tables[table].entries[index];
    if !is_present(entry) {
        Err(TranslateError::PageNotMapped)
    } else if is_huge(entry) {
        Err(TranslateError::ParentEntryHugePage)
    } else {
        Ok(entry_address(entry))
    }
}

/// The frame that `page` is mapped to, looked up from the table of `level` in
/// `table` downwards: above level one through the entry's table, at level one
/// the address in the page's entry, if the entry is in use.
pub open spec fn spec_translate_from(
    tables: Map<u64, TableView>,
    table: u64,
    level: PageTableLevel,
    page: u64,
) -> Result<u64, TranslateError>
    decreases level.number(),
{
    let index = spec_page_table_index(page, level) as int;
    match level.spec_next_lower_level() {
        None => {
            if tables[table].entries[index] == 0 {
                Err(TranslateError::PageNotMapped)
            } else {
                Ok(entry_address(tables[table].entries[index]))
            }
        },
        Some(lower) => {
            match spec_next_table(tables, table, index) {
                Err(e) => Err(e),
                Ok(next) => spec_translate_from(tables, next, lower, page),
            }
        },
    }
}

/// The frame that `page` is mapped to by the tables under the root in `root`.
pub open spec fn spec_translate(tables: Map<u64, TableView>, root: u64, page: u64) -> Result<
    u64,
    TranslateError,
> {
    spec_translate_from(tables, root, PageTableLevel::Four, page)
}

/// The frames of the tables that the walk to `page` goes through, from the
/// table of `level` in `table` down, as far as it goes on.
pub open spec fn spec_walk_path(
    tables: Map<u64, TableView>,
    table: u64,
    level: PageTableLevel,
    page: u64,
) -> Seq<u64>
    decreases level.number(),
{
    let entry = tables[table].entries[spec_page_table_index(page, level) as int];
    match level.spec_next_lower_level() {
        None => seq![table],
        Some(lower) => if leads_to_table(entry) {
            seq![table] + spec_walk_path(tables, entry_address(entry), lower, page)
        } else {
            seq![table]
        },
    }
}

/// The physical address that the virtual address `addr` stands for: the frame
/// that the address's page is mapped to, and the address's place in the page.
/// None if the page is not mapped.
pub open spec fn spec_translate_addr(tables: Map<u64, TableView>, root: u64, addr: u64) -> Option<u64> {
    match spec_translate(tables, root, align_down(addr)) {
        Ok(frame) => Some((frame + addr % 4096) as u64),
        Err(_) => None,
    }
}

/// The byte that a read at the virtual address `addr` finds, in physical
/// memory that holds `bytes`. None if the address's page is not mapped.
pub open spec fn spec_read(tables: Map<u64, TableView>, root: u64, bytes: Map<u64, u8>, addr: u64) -> Option<
    u8,
> {
    match spec_translate_addr(tables, root, addr) {
        Some(physical) => Some(bytes[physical]),
        None => None,
    }
}

} // verus!
