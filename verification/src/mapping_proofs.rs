//! What holds of mapping a page: what a walk meets decides how the mapping
//! ends, a page that got mapped is found again, and mapping it once more
//! fails and changes nothing.

use vstd::prelude::*;
use crate::addr::{
    is_page_aligned,
    Frame,
    is_frame,
    lemma_page_table_index_bound,
    PageTableLevel,
    spec_page_table_index,
};
use crate::mapping::{
    spec_read,
    spec_translate_addr,
    level_below,
    among_first,
    are_frames,
    frames_fresh,
    MapState,
    MapToError,
    parent_table_flags,
    spec_create_next_table,
    spec_frames_taken,
    spec_map_from,
    spec_map_result,
    spec_map_to,
    spec_mapped_with,
    spec_next_table,
    spec_translate,
    spec_translate_from,
    spec_walk,
    spec_walk_from,
    TranslateError,
};
use crate::memory_map::{
    lemma_usable_frames_distinct,
    lemma_usable_frames_page_aligned,
    lemma_usable_frames_physical,
    MemoryRegion,
    regions_addressable,
    regions_aligned,
    regions_ascending,
    usable_frames,
};
use crate::page_table::{
    entry_address,
    HUGE_PAGE,
    is_flags,
    is_huge,
    is_present,
    lemma_entry_of_frame,
    lemma_entry_with_flags,
    lemma_with_entry_wf,
    lemma_with_table_wf,
    table_wf,
    tables_wf,
    TableView,
    with_entry,
    with_table,
    zero_entries,
};

verus! {

/// The flags for the tables on the way are flags, never say huge page, and
/// say present if the page's flags do.
pub proof fn lemma_parent_table_flags(flags: u64)
    ensures
        is_flags(parent_table_flags(flags)),
        parent_table_flags(flags) & HUGE_PAGE == 0,
        is_present(flags) ==> is_present(parent_table_flags(flags)),
        parent_table_flags(parent_table_flags(flags)) == parent_table_flags(flags),
{
    assert((flags & 0x7u64) & 0x000f_ffff_ffff_f000 == 0 && (flags & 0x7u64) & 0x80 == 0 && (flags
        & 0x1 != 0 ==> (flags & 0x7u64) & 0x1 != 0) && (flags & 0x7u64) & 0x7u64 == flags
        & 0x7u64) by (bit_vector);
    assert(0x1u64 | 0x2u64 | 0x4u64 == 0x7u64) by (bit_vector);
}

/// A present entry without the huge-page flag, in a table above level one of
/// sound tables, leads to a table of the next level.
pub proof fn lemma_present_entry_leads_on(tables: Map<u64, TableView>, table: u64, index: int)
    requires
        tables_wf(tables),
        tables.contains_key(table),
        tables[table].level != PageTableLevel::One,
        0 <= index < 512,
        spec_next_table(tables, table, index) is Ok,
    ensures
        tables.contains_key(spec_next_table(tables, table, index)->Ok_0),
        Some(tables[spec_next_table(tables, table, index)->Ok_0].level)
            == tables[table].level.spec_next_lower_level(),
{
    let entry = tables[table].entries[index];
    assert(table_wf(tables, table));
    assert(entry != 0) by (bit_vector)
        requires
            entry & 0x1 != 0,
    ;
}

/// What one step down does on sound tables: the tables stay sound, each table
/// stays where it is with its level, none but the one stepped through
/// changes, and the step's entry leads to the table that the step gives.
pub proof fn lemma_step(s: MapState, table: u64, index: int, flags: u64)
    requires
        tables_wf(s.tables),
        s.tables.contains_key(table),
        s.tables[table].level != PageTableLevel::One,
        0 <= index < 512,
        is_flags(flags),
        flags & HUGE_PAGE == 0,
        is_present(flags),
        frames_fresh(s.tables, s.frames, 1),
        are_frames(s.frames, 1),
    ensures
        ({
            let after = spec_create_next_table(s, table, index, flags).0;
            let next = spec_create_next_table(s, table, index, flags).1;
            let entry = s.tables[table].entries[index];
            &&& tables_wf(after.tables)
            &&& forall|f: u64| #[trigger]
                s.tables.contains_key(f) ==> after.tables.contains_key(f) && after.tables[f].level
                    == s.tables[f].level
            &&& forall|f: u64| #[trigger]
                s.tables.contains_key(f) && f != table ==> after.tables[f] == s.tables[f]
            &&& next matches Ok(below) ==> {
                &&& after.tables.contains_key(below)
                &&& Some(after.tables[below].level) == s.tables[table].level.spec_next_lower_level()
                &&& spec_next_table(after.tables, table, index) == Ok::<u64, TranslateError>(below)
                &&& after.tables[table].entries[index] != 0
                &&& after.tables[table].entries[index] | flags == after.tables[table].entries[index]
                &&& entry == 0 ==> after.tables[below].entries == zero_entries()
                &&& entry != 0 ==> below == entry_address(entry) && !is_huge(entry)
            }
            &&& next matches Err(e) ==> if entry == 0 {
                e == MapToError::FrameAllocationFailed && s.frames.len() == 0 && after == s
            } else {
                e == MapToError::ParentEntryHugePage && is_huge(entry)
            }
            &&& after.frames == if entry == 0 && s.frames.len() > 0 {
                s.frames.skip(1)
            } else {
                s.frames
            }
            &&& entry != 0 && entry | flags == entry ==> after == s
        }),
{
    let after = spec_create_next_table(s, table, index, flags).0;
    let entry = s.tables[table].entries[index];
    let level = s.tables[table].level;
    assert(table_wf(s.tables, table));
    assert(flags != 0) by (bit_vector)
        requires
            flags & 0x1 != 0,
    ;
    if entry == 0 {
        if s.frames.len() > 0 {
            let frame = s.frames[0];
            let lower = level_below(level);
            let linked = frame | flags;
            assert(!s.tables.contains_key(frame));
            lemma_entry_of_frame(frame, flags);
            lemma_entry_with_flags(frame, flags);
            let cleared = with_table(s.tables, frame, lower);
            lemma_with_table_wf(s.tables, frame, lower);
            lemma_with_entry_wf(cleared, table, index, linked);
            assert(after.tables =~= with_entry(cleared, table, index, linked));
        }
    } else {
        let updated = entry | flags;
        lemma_entry_with_flags(entry, flags);
        lemma_with_entry_wf(s.tables, table, index, updated);
        if updated == entry {
            assert(s.tables[table].entries.update(index, updated) =~= s.tables[table].entries);
            assert(after.tables =~= s.tables);
        }
    }
}

/// A step down leaves one fresh frame less to ask for: the frames that were
/// fresh before it, but for the first, are fresh after it.
pub proof fn lemma_step_keeps_fresh(s: MapState, table: u64, index: int, flags: u64, count: nat)
    requires
        frames_fresh(s.tables, s.frames, count),
        count >= 1,
        s.tables.contains_key(table),
    ensures
        frames_fresh(
            spec_create_next_table(s, table, index, flags).0.tables,
            spec_create_next_table(s, table, index, flags).0.frames,
            (count - 1) as nat,
        ),
{
    let after = spec_create_next_table(s, table, index, flags).0;
    let entry = s.tables[table].entries[index];
    if entry == 0 && s.frames.len() > 0 {
        assert forall|i: int| 0 <= i < after.frames.len() && i < count - 1 implies !after.tables.contains_key(
            #[trigger] after.frames[i],
        ) by {
            assert(after.frames[i] == s.frames[i + 1]);
            assert(s.frames[0] != s.frames[i + 1]);
        }
        assert forall|i: int, j: int| 0 <= i < j < after.frames.len() && j < count - 1 implies #[trigger]
            after.frames[i] != #[trigger] after.frames[j] by {
            assert(after.frames[i] == s.frames[i + 1]);
            assert(after.frames[j] == s.frames[j + 1]);
        }
    }
}

/// After a step down the tables are those from before it, and one more in
/// the allocator's first frame if the step took it.
pub proof fn lemma_step_tables(s: MapState, table: u64, index: int, flags: u64, frame: u64)
    requires
        s.tables.contains_key(table),
    ensures
        spec_create_next_table(s, table, index, flags).0.tables.contains_key(frame) <==> (
        s.tables.contains_key(frame) || (s.tables[table].entries[index] == 0 && s.frames.len() > 0
            && frame == s.frames[0])),
        spec_create_next_table(s, table, index, flags).0.frames == (if s.tables[table].entries[index]
            == 0 && s.frames.len() > 0 {
            s.frames.skip(1)
        } else {
            s.frames
        }),
{
}

/// A walk does not see a change to a table of a level above its own.
pub proof fn lemma_walk_stable(
    a: Map<u64, TableView>,
    b: Map<u64, TableView>,
    table: u64,
    level: PageTableLevel,
    page: u64,
    changed: u64,
)
    requires
        tables_wf(a),
        a.contains_key(table),
        a[table].level == level,
        a.contains_key(changed),
        a[changed].level.number() > level.number(),
        forall|f: u64| #[trigger] a.contains_key(f) && f != changed ==> b.contains_key(f) && b[f] == a[f],
    ensures
        spec_walk_from(b, table, level, page) == spec_walk_from(a, table, level, page),
    decreases level.number(),
{
    let index = spec_page_table_index(page, level) as int;
    lemma_page_table_index_bound(page, level);
    assert(table_wf(a, table));
    let entry = a[table].entries[index];
    match level.spec_next_lower_level() {
        None => {},
        Some(lower) => {
            if entry != 0 && !is_huge(entry) {
                lemma_walk_stable(a, b, entry_address(entry), lower, page, changed);
            }
        },
    }
}

/// What mapping a page does, from the table of `level` in `table` on, in
/// sound tables and with fresh frames to come: the tables stay sound; each
/// table stays where it is with its level; tables of higher levels do not
/// change; what the walk meets decides how the mapping ends and how many
/// frames it takes; and a page that got mapped is found under the frame, at
/// the end of a way whose entries hold the flags for tables.
pub proof fn lemma_map_from(
    s: MapState,
    table: u64,
    level: PageTableLevel,
    page: u64,
    frame: Frame,
    flags: u64,
)
    requires
        tables_wf(s.tables),
        s.tables.contains_key(table),
        s.tables[table].level == level,
        frames_fresh(s.tables, s.frames, (level.number() - 1) as nat),
        are_frames(s.frames, (level.number() - 1) as nat),
        is_flags(flags),
        is_present(flags),
        !is_huge(flags),
        frame.wf(),
    ensures
        ({
            let out = spec_map_from(s, table, level, page, frame, flags);
            let walk = spec_walk_from(s.tables, table, level, page);
            &&& tables_wf(out.0.tables)
            &&& forall|f: u64| #[trigger]
                s.tables.contains_key(f) ==> out.0.tables.contains_key(f) && out.0.tables[f].level
                    == s.tables[f].level
            &&& forall|f: u64| #[trigger]
                s.tables.contains_key(f) && s.tables[f].level.number() > level.number()
                    ==> out.0.tables[f] == s.tables[f]
            &&& out.1 == spec_map_result(walk, s.frames.len(), frame)
            &&& out.0.frames == s.frames.skip(spec_frames_taken(walk, s.frames.len()) as int)
            &&& forall|f: u64| #[trigger]
                out.0.tables.contains_key(f) ==> s.tables.contains_key(f) || among_first(
                    s.frames,
                    spec_frames_taken(walk, s.frames.len()),
                    f,
                )
            &&& out.1 is Ok ==> spec_translate_from(out.0.tables, table, level, page) == Ok::<
                u64,
                TranslateError,
            >(frame.start())
            &&& out.1 is Ok ==> spec_mapped_with(
                out.0.tables,
                table,
                level,
                page,
                parent_table_flags(flags),
            )
        }),
    decreases level.number(),
{
    let index = spec_page_table_index(page, level) as int;
    lemma_page_table_index_bound(page, level);
    lemma_parent_table_flags(flags);
    let parent_flags = parent_table_flags(flags);
    assert(table_wf(s.tables, table));
    let entry = s.tables[table].entries[index];
    assert(s.frames.skip(0) =~= s.frames);
    assert(flags != 0) by (bit_vector)
        requires
            flags & 0x1 != 0,
    ;
    match level.spec_next_lower_level() {
        None => {
            if entry == 0 {
                lemma_entry_of_frame(frame.start(), flags);
                lemma_with_entry_wf(s.tables, table, index, frame.start() | flags);
            }
        },
        Some(lower) => {
            lemma_step(s, table, index, parent_flags);
            let step = spec_create_next_table(s, table, index, parent_flags);
            match step.1 {
                Err(e) => {},
                Ok(next) => {
                    lemma_step_keeps_fresh(s, table, index, parent_flags, (level.number() - 1) as nat);
                    assert(are_frames(step.0.frames, (lower.number() - 1) as nat)) by {
                        assert forall|i: int|
                            0 <= i < step.0.frames.len() && i < lower.number() - 1 implies is_frame(
                            #[trigger] step.0.frames[i],
                        ) by {
                            if entry == 0 {
                                assert(step.0.frames[i] == s.frames[i + 1]);
                            }
                        }
                    }
                    lemma_map_from(step.0, next, lower, page, frame, flags);
                    let out = spec_map_from(step.0, next, lower, page, frame, flags);
                    assert(out == spec_map_from(s, table, level, page, frame, flags));
                    lemma_page_table_index_bound(page, lower);
                    if entry == 0 {
                        let taken = spec_frames_taken(
                            spec_walk_from(step.0.tables, next, lower, page),
                            step.0.frames.len(),
                        );
                        assert(step.0.tables[next].entries[spec_page_table_index(page, lower) as int]
                            == 0);
                        assert(s.frames.skip(1).skip(taken as int) =~= s.frames.skip(1 + taken as int));
                    } else {
                        lemma_walk_stable(s.tables, step.0.tables, next, lower, page, table);
                    }
                    assert(out.0.tables[table] == step.0.tables[table]);
                    let walk = spec_walk_from(s.tables, table, level, page);
                    let taken = spec_frames_taken(walk, s.frames.len());
                    assert forall|f: u64| #[trigger] out.0.tables.contains_key(f) implies s.tables.contains_key(
                        f,
                    ) || among_first(s.frames, taken, f) by {
                        if !s.tables.contains_key(f) {
                            if step.0.tables.contains_key(f) {
                                assert(entry == 0 && f == s.frames[0]);
                            } else {
                                let inner = spec_frames_taken(
                                    spec_walk_from(step.0.tables, next, lower, page),
                                    step.0.frames.len(),
                                );
                                let i = choose|i: int| 0 <= i < inner && i < step.0.frames.len()
                                    && step.0.frames[i] == f;
                                if entry == 0 {
                                    assert(s.frames[i + 1] == f);
                                } else {
                                    assert(s.frames[i] == f);
                                }
                            }
                        }
                    }
                },
            }
        },
    }
}

/// A step through an entry that is in use and holds the flags changes
/// nothing.
pub proof fn lemma_step_settled(s: MapState, table: u64, index: int, flags: u64)
    requires
        s.tables.contains_key(table),
        0 <= index < s.tables[table].entries.len(),
        s.tables[table].entries[index] != 0,
        s.tables[table].entries[index] | flags == s.tables[table].entries[index],
    ensures
        spec_create_next_table(s, table, index, flags).0 == s,
{
    let entry = s.tables[table].entries[index];
    assert(s.tables[table].entries.update(index, entry) =~= s.tables[table].entries);
    assert(with_entry(s.tables, table, index, entry) =~= s.tables);
}

/// Mapping a page that is mapped, at the end of a way whose entries hold the
/// flags for tables, fails as already mapped and changes nothing.
pub proof fn lemma_mapped_again(
    s: MapState,
    table: u64,
    level: PageTableLevel,
    page: u64,
    frame: Frame,
    flags: u64,
)
    requires
        tables_wf(s.tables),
        s.tables.contains_key(table),
        s.tables[table].level == level,
        spec_mapped_with(s.tables, table, level, page, parent_table_flags(flags)),
    ensures
        spec_map_from(s, table, level, page, frame, flags) == (
            s,
            Err::<(), MapToError>(MapToError::PageAlreadyMapped(frame)),
        ),
    decreases level.number(),
{
    let index = spec_page_table_index(page, level) as int;
    lemma_page_table_index_bound(page, level);
    assert(table_wf(s.tables, table));
    match level.spec_next_lower_level() {
        None => {},
        Some(lower) => {
            let entry = s.tables[table].entries[index];
            lemma_step_settled(s, table, index, parent_table_flags(flags));
            lemma_mapped_again(s, entry_address(entry), lower, page, frame, flags);
        },
    }
}

/// How mapping a page ends: what the walk to the page meets in the tables as
/// they were, and the number of frames that the allocator had left, decide
/// whether the page gets mapped and with which error it fails; one frame is
/// taken for each missing table, as far as the frames go; and the tables stay
/// sound.
pub proof fn lemma_map_to_outcome(s: MapState, root: u64, page: u64, frame: Frame, flags: u64)
    requires
        tables_wf(s.tables),
        s.tables.contains_key(root),
        s.tables[root].level == PageTableLevel::Four,
        frames_fresh(s.tables, s.frames, 3),
        are_frames(s.frames, 3),
        is_flags(flags),
        is_present(flags),
        !is_huge(flags),
        frame.wf(),
    ensures
        tables_wf(spec_map_to(s, root, page, frame, flags).0.tables),
        spec_map_to(s, root, page, frame, flags).1 == spec_map_result(
            spec_walk(s.tables, root, page),
            s.frames.len(),
            frame,
        ),
        spec_map_to(s, root, page, frame, flags).0.frames == s.frames.skip(
            spec_frames_taken(spec_walk(s.tables, root, page), s.frames.len()) as int,
        ),
{
    lemma_map_from(s, root, PageTableLevel::Four, page, frame, flags);
}

/// A page that got mapped is found again: looking it up in the tables as the
/// mapping left them gives the frame that it was mapped to.
pub proof fn lemma_mapped_page_translates(s: MapState, root: u64, page: u64, frame: Frame, flags: u64)
    requires
        tables_wf(s.tables),
        s.tables.contains_key(root),
        s.tables[root].level == PageTableLevel::Four,
        frames_fresh(s.tables, s.frames, 3),
        are_frames(s.frames, 3),
        is_flags(flags),
        is_present(flags),
        !is_huge(flags),
        frame.wf(),
        spec_map_to(s, root, page, frame, flags).1 is Ok,
    ensures
        spec_translate(spec_map_to(s, root, page, frame, flags).0.tables, root, page) == Ok::<
            u64,
            TranslateError,
        >(frame.start()),
{
    lemma_map_from(s, root, PageTableLevel::Four, page, frame, flags);
}

/// What is written to the frame is read through the page: after a page got
/// mapped to a frame, a byte written at a place in the frame, by its physical
/// address, is the byte that a read at the same place in the page finds.
pub proof fn lemma_write_to_frame_read_through_page(
    s: MapState,
    root: u64,
    page: u64,
    frame: Frame,
    flags: u64,
    bytes: Map<u64, u8>,
    place: u64,
    value: u8,
)
    requires
        tables_wf(s.tables),
        s.tables.contains_key(root),
        s.tables[root].level == PageTableLevel::Four,
        frames_fresh(s.tables, s.frames, 3),
        are_frames(s.frames, 3),
        is_flags(flags),
        is_present(flags),
        !is_huge(flags),
        frame.wf(),
        is_page_aligned(page),
        place < 4096,
        spec_map_to(s, root, page, frame, flags).1 is Ok,
    ensures
        spec_translate_addr(spec_map_to(s, root, page, frame, flags).0.tables, root, (page + place) as u64)
            == Some((frame.start() + place) as u64),
        spec_read(
            spec_map_to(s, root, page, frame, flags).0.tables,
            root,
            bytes.insert((frame.start() + place) as u64, value),
            (page + place) as u64,
        ) == Some(value),
{
    lemma_mapped_page_translates(s, root, page, frame, flags);
}

/// Mapping a page a second time fails as already mapped, whatever frame it
/// is to be mapped to, and leaves the tables and the allocator's frames as
/// the first mapping left them: the page is still found under the first
/// frame.
pub proof fn lemma_mapping_twice_fails(
    s: MapState,
    root: u64,
    page: u64,
    frame: Frame,
    flags: u64,
    other: Frame,
)
    requires
        tables_wf(s.tables),
        s.tables.contains_key(root),
        s.tables[root].level == PageTableLevel::Four,
        frames_fresh(s.tables, s.frames, 3),
        are_frames(s.frames, 3),
        is_flags(flags),
        is_present(flags),
        !is_huge(flags),
        frame.wf(),
        spec_map_to(s, root, page, frame, flags).1 is Ok,
    ensures
        ({
            let first = spec_map_to(s, root, page, frame, flags).0;
            let second = spec_map_to(first, root, page, other, flags);
            &&& second.1 == Err::<(), MapToError>(MapToError::PageAlreadyMapped(other))
            &&& second.0 == first
            &&& spec_translate(second.0.tables, root, page) == Ok::<u64, TranslateError>(
                frame.start(),
            )
        }),
{
    lemma_map_from(s, root, PageTableLevel::Four, page, frame, flags);
    let first = spec_map_to(s, root, page, frame, flags).0;
    lemma_mapped_again(first, root, PageTableLevel::Four, page, other, flags);
}

/// The frames of a memory map may take new tables, as many as are asked for,
/// if the map's usable regions start on page boundaries, come by rising
/// address, do not overlap, lie in physical address space, and hold no table.
pub proof fn lemma_map_frames_are_fresh(
    tables: Map<u64, TableView>,
    regions: Seq<MemoryRegion>,
    count: nat,
)
    requires
        regions_aligned(regions),
        regions_ascending(regions),
        regions_addressable(regions),
        forall|i: int|
            0 <= i < usable_frames(regions).len() ==> !tables.contains_key(
                #[trigger] usable_frames(regions)[i],
            ),
    ensures
        frames_fresh(tables, usable_frames(regions), count),
        are_frames(usable_frames(regions), count),
{
    let frames = usable_frames(regions);
    assert forall|i: int, j: int| 0 <= i < j < frames.len() && j < count implies #[trigger] frames[i]
        != #[trigger] frames[j] by {
        lemma_usable_frames_distinct(regions, i, j);
    }
    assert forall|i: int| 0 <= i < frames.len() && i < count implies is_frame(#[trigger] frames[i]) by {
        lemma_usable_frames_page_aligned(regions, i);
        lemma_usable_frames_physical(regions, i);
    }
}

} // verus!
