//! The four-level page tables, held in an arena: each table is known by the
//! physical frame that holds it, and an entry that points to a table names
//! that frame.

use std::collections::HashMap;
use vstd::prelude::*;
use crate::addr::{
    Frame,
    is_page_aligned,
    is_physical,
    PageTableLevel,
};
use crate::interrupts::{
    Entry,
};

verus! {

broadcast use vstd::std_specs::hash::group_hash_axioms;

/// The number of entries of a page table.
pub const ENTRY_COUNT: usize = 512;

/// The bits of an entry that hold the physical address: bits 12 to 51.
pub const ADDRESS_MASK: u64 = 0x000f_ffff_ffff_f000;

/// Flag of an entry: the frame or table that it points to is in memory.
pub const PRESENT: u64 = 0x1;

/// Flag of an entry: writes through it are allowed.
pub const WRITABLE: u64 = 0x2;

/// Flag of an entry: code outside the kernel may use it.
pub const USER_ACCESSIBLE: u64 = 0x4;

/// Flag of an entry: it maps a huge frame and points to no table.
pub const HUGE_PAGE: u64 = 0x80;

/// The physical address that an entry holds.
pub open spec fn entry_address(entry: u64) -> u64 {
    entry & ADDRESS_MASK
}

/// The flags that an entry holds: all its bits but the address.
pub open spec fn entry_flags(entry: u64) -> u64 {
    entry & !ADDRESS_MASK
}

/// Whether an entry has the present flag.
pub open spec fn is_present(entry: u64) -> bool {
    entry & PRESENT != 0
}

/// Whether an entry has the huge-page flag.
pub open spec fn is_huge(entry: u64) -> bool {
    entry & HUGE_PAGE != 0
}

/// Whether a mapping walk goes on through this entry of a table above level
/// one: it is in use and maps no huge frame.
pub open spec fn leads_to_table(entry: u64) -> bool {
    entry != 0 && !is_huge(entry)
}

/// Whether `flags` holds flag bits only, and none of the address.
pub open spec fn is_flags(flags: u64) -> bool {
    flags & ADDRESS_MASK == 0
}

/// What a page table is: its level, and its 512 entries.
pub ghost struct TableView {
    /// The table's level.
    pub level: PageTableLevel,
    /// The table's entries.
    pub entries: Seq<u64>,
}

/// The entries of a table that was cleared.
pub open spec fn zero_entries() -> Seq<u64> {
    Seq::new(512, |i: int| 0u64)
}

/// Whether `entry`, in a table of `level`, points where the walk can go on:
/// if the walk goes on through the entry, its address is the frame of a table
/// one level below.
pub open spec fn entry_linked(tables: Map<u64, TableView>, level: PageTableLevel, entry: u64) -> bool {
    level != PageTableLevel::One && leads_to_table(entry) ==> {
        &&& tables.contains_key(entry_address(entry))
        &&& Some(tables[entry_address(entry)].level) == level.spec_next_lower_level()
    }
}

/// Whether the table in `frame` is sound: the frame is one, the table has 512
/// entries, and each of them is linked.
pub open spec fn table_wf(tables: Map<u64, TableView>, frame: u64) -> bool {
    &&& is_page_aligned(frame)
    &&& is_physical(frame)
    &&& tables[frame].entries.len() == 512
    &&& forall|i: int|
        0 <= i < 512 ==> entry_linked(tables, tables[frame].level, #[trigger] tables[frame].entries[i])
}

/// Whether all tables are sound: every entry above level one through which a
/// walk goes on points to a frame that holds a table of the next level.
pub open spec fn tables_wf(tables: Map<u64, TableView>) -> bool {
    forall|frame: u64| #[trigger] tables.contains_key(frame) ==> table_wf(tables, frame)
}

/// `tables` with entry `index` of the table in `frame` replaced by `entry`.
pub open spec fn with_entry(tables: Map<u64, TableView>, frame: u64, index: int, entry: u64) -> Map<
    u64,
    TableView,
> {
    tables.insert(
        frame,
        TableView { level: tables[frame].level, entries: tables[frame].entries.update(index, entry) },
    )
}

/// `tables` with a cleared table of `level` in `frame`.
pub open spec fn with_table(tables: Map<u64, TableView>, frame: u64, level: PageTableLevel) -> Map<
    u64,
    TableView,
> {
    tables.insert(frame, TableView { level, entries: zero_entries() })
}

/// Whether `entry` may be stored at `index` of the table in `frame` with the
/// tables staying sound.
pub open spec fn entry_accepted(tables: Map<u64, TableView>, frame: u64, index: int, entry: u64) -> bool {
    &&& tables.contains_key(frame)
    &&& 0 <= index < 512
    &&& entry_linked(tables, tables[frame].level, entry)
}

/// Storing a linked entry keeps the tables sound.
pub proof fn lemma_with_entry_wf(tables: Map<u64, TableView>, frame: u64, index: int, entry: u64)
    requires
        tables_wf(tables),
        entry_accepted(tables, frame, index, entry),
    ensures
        tables_wf(with_entry(tables, frame, index, entry)),
{
    let after = with_entry(tables, frame, index, entry);
    assert forall|f: u64| #[trigger] after.contains_key(f) implies table_wf(after, f) by {
        assert(tables.contains_key(f));
        assert(table_wf(tables, f));
        assert forall|i: int| 0 <= i < 512 implies entry_linked(
            after,
            after[f].level,
            #[trigger] after[f].entries[i],
        ) by {
            let e = after[f].entries[i];
            if f == frame && i == index {
                assert(e == entry);
            } else {
                assert(e == tables[f].entries[i]);
            }
            assert(entry_linked(tables, tables[f].level, e));
            if after[f].level != PageTableLevel::One && leads_to_table(e) {
                assert(tables.contains_key(entry_address(e)));
            }
        }
    }
}

/// Adding a cleared table in a frame that holds none keeps the tables sound.
pub proof fn lemma_with_table_wf(tables: Map<u64, TableView>, frame: u64, level: PageTableLevel)
    requires
        tables_wf(tables),
        !tables.contains_key(frame),
        is_page_aligned(frame),
        is_physical(frame),
    ensures
        tables_wf(with_table(tables, frame, level)),
{
    let after = with_table(tables, frame, level);
    assert forall|f: u64| #[trigger] after.contains_key(f) implies table_wf(after, f) by {
        if f != frame {
            assert(tables.contains_key(f));
            assert(table_wf(tables, f));
            assert forall|i: int| 0 <= i < 512 implies entry_linked(
                after,
                after[f].level,
                #[trigger] after[f].entries[i],
            ) by {
                let e = tables[f].entries[i];
                assert(entry_linked(tables, tables[f].level, e));
                if tables[f].level != PageTableLevel::One && leads_to_table(e) {
                    assert(tables.contains_key(entry_address(e)));
                    assert(entry_address(e) != frame);
                }
            }
        }
    }
}

/// The frame of the table that a mapping walk goes on to through `entry`, if
/// it goes on: the address in an entry that is in use and maps no huge frame.
pub fn entry_target(entry: u64) -> (target: Option<Frame>)
    ensures
        target == if leads_to_table(entry) {
            Some(Frame::spec_from_start(entry_address(entry)))
        } else {
            None::<Frame>
        },
{
    if entry != 0 && entry & HUGE_PAGE == 0 {
        proof {
            lemma_entry_address_is_frame(entry);
        }
        Some(Frame::containing_address(entry & ADDRESS_MASK))
    } else {
        None
    }
}

/// One page table as it is held in memory.
struct Table {
    level: PageTableLevel,
    entries: Vec<u64>,
}

impl View for Table {
    type V = TableView;

    closed spec fn view(&self) -> TableView {
        TableView { level: self.level, entries: self.entries@ }
    }
}

/// The part of physical memory that holds page tables: for each frame that
/// holds one, the table in it.
pub struct PageTableMemory {
    tables: HashMap<u64, Table>,
}

impl View for PageTableMemory {
    type V = Map<u64, TableView>;

    closed spec fn view(&self) -> Map<u64, TableView> {
        Map::new(|frame: u64| self.tables@.contains_key(frame), |frame: u64| self.tables@[frame]@)
    }
}

impl PageTableMemory {
    /// Whether the tables in this memory are sound.
    pub open spec fn wf(&self) -> bool {
        tables_wf(self@)
    }

    /// A memory that holds no table.
    pub fn new() -> (memory: PageTableMemory)
        ensures
            memory.wf(),
            memory@ == Map::<u64, TableView>::empty(),
    {
        let memory = PageTableMemory { tables: HashMap::new() };
        assert(memory@ =~= Map::<u64, TableView>::empty());
        memory
    }

    /// Whether `frame` holds a table.
    pub fn contains(&self, frame: Frame) -> (held: bool)
        ensures
            held == self@.contains_key(frame.start()),
    {
        let key: u64 = frame.start_address();
        self.tables.contains_key(&key)
    }

    /// The level of the table in `frame`, or `None` if the frame holds none.
    pub fn level(&self, frame: Frame) -> (level: Option<PageTableLevel>)
        ensures
            level == if self@.contains_key(frame.start()) {
                Some(self@[frame.start()].level)
            } else {
                None::<PageTableLevel>
            },
    {
        let key: u64 = frame.start_address();
        match self.tables.get(&key) {
            Some(table) => Some(table.level),
            None => None,
        }
    }

    /// Entry `index` of the table in `frame`, or `None` if the frame holds no
    /// table or the table has no such entry.
    pub fn entry(&self, frame: Frame, index: usize) -> (entry: Option<u64>)
        requires
            self.wf(),
        ensures
            entry == if self@.contains_key(frame.start()) && index < 512 {
                Some(self@[frame.start()].entries[index as int])
            } else {
                None::<u64>
            },
    {
        let key: u64 = frame.start_address();
        match self.tables.get(&key) {
            Some(table) => {
                assert(self@.contains_key(key));
                assert(table_wf(self@, key));
                if index < 512 {
                    Some(table.entries[index])
                } else {
                    None
                }
            },
            None => None,
        }
    }

    /// Puts a cleared table of `level` into `frame`, unless the frame holds a
    /// table already. Tells whether it did.
    pub fn insert_table(&mut self, frame: Frame, level: PageTableLevel) -> (inserted: bool)
        requires
            old(self).wf(),
        ensures
            final(self).wf(),
            inserted == !old(self)@.contains_key(frame.start()),
            final(self)@ == if inserted {
                with_table(old(self)@, frame.start(), level)
            } else {
                old(self)@
            },
    {
        let key: u64 = frame.start_address();
        if self.tables.contains_key(&key) {
            return false;
        }
        self.add_table(key, level);
        proof {
            lemma_with_table_wf(old(self)@, key, level);
        }
        true
    }

    /// Stores `entry` at `index` of the table in `frame`, if the tables stay
    /// sound with it: the frame holds a table, the table has such an entry,
    /// and an entry through which a walk goes on points to a table of the
    /// next level. Tells whether it did.
    pub fn set_entry(&mut self, frame: Frame, index: usize, entry: u64) -> (stored: bool)
        requires
            old(self).wf(),
        ensures
            final(self).wf(),
            stored == entry_accepted(old(self)@, frame.start(), index as int, entry),
            final(self)@ == if stored {
                with_entry(old(self)@, frame.start(), index as int, entry)
            } else {
                old(self)@
            },
    {
        let key: u64 = frame.start_address();
        if index >= 512 {
            return false;
        }
        let level = match self.tables.get(&key) {
            Some(table) => table.level,
            None => {
                return false;
            },
        };
        assert(self@.contains_key(key));
        let linked = match level.next_lower_level() {
            None => true,
            Some(lower) => {
                if entry == 0 || entry & HUGE_PAGE != 0 {
                    true
                } else {
                    let target: u64 = entry & ADDRESS_MASK;
                    match self.tables.get(&target) {
                        Some(table) => {
                            assert(self@.contains_key(target));
                            table.level == lower
                        },
                        None => false,
                    }
                }
            },
        };
        assert(linked == entry_linked(self@, level, entry));
        if !linked {
            return false;
        }
        assert(table_wf(self@, key));
        self.write_entry(key, index, entry);
        proof {
            lemma_with_entry_wf(old(self)@, key, index as int, entry);
        }
        true
    }

    /// The level of the table in the frame at `frame`.
    pub(crate) fn level_of(&self, frame: u64) -> (level: PageTableLevel)
        requires
            self@.contains_key(frame),
        ensures
            level == self@[frame].level,
    {
        match self.tables.get(&frame) {
            Some(table) => table.level,
            None => PageTableLevel::One,
        }
    }

    /// Puts a cleared table of `level` into the frame at `frame`.
    pub(crate) fn add_table(&mut self, frame: u64, level: PageTableLevel)
        ensures
            final(self)@ == with_table(old(self)@, frame, level),
    {
        let entries: Vec<u64> = vec![0u64; 512];
        assert(entries@ =~= zero_entries());
        self.tables.insert(frame, Table { level, entries });
        assert(final(self)@ =~= with_table(old(self)@, frame, level));
    }

    /// Entry `index` of the table in the frame at `frame`.
    pub(crate) fn read_entry(&self, frame: u64, index: usize) -> (entry: u64)
        requires
            self@.contains_key(frame),
            index < self@[frame].entries.len(),
        ensures
            entry == self@[frame].entries[index as int],
    {
        match self.tables.get(&frame) {
            Some(table) => table.entries[index],
            None => 0,
        }
    }

    /// Stores `entry` at `index` of the table in the frame at `frame`.
    pub(crate) fn write_entry(&mut self, frame: u64, index: usize, entry: u64)
        requires
            old(self)@.contains_key(frame),
            index < old(self)@[frame].entries.len(),
        ensures
            final(self)@ == with_entry(old(self)@, frame, index as int, entry),
    {
        match self.tables.remove(&frame) {
            Some(table) => {
                let mut table = table;
                table.entries.set(index, entry);
                self.tables.insert(frame, table);
            },
            None => {},
        }
        assert(final(self)@ =~= with_entry(old(self)@, frame, index as int, entry));
    }
}

/// An entry made of a frame's address and flags holds both apart.
pub proof fn lemma_entry_of_frame(frame: u64, flags: u64)
    requires
        is_page_aligned(frame),
        is_physical(frame),
        is_flags(flags),
    ensures
        entry_address(frame | flags) == frame,
        entry_flags(frame | flags) == flags,
        is_huge(frame | flags) == is_huge(flags),
        is_present(frame | flags) == is_present(flags),
        flags != 0 ==> frame | flags != 0,
{
    assert(frame & 0x000f_ffff_ffff_f000 == frame) by (bit_vector)
        requires
            frame % 4096 == 0,
            frame < 0x10_0000_0000_0000,
    ;
    assert((frame | flags) & 0x000f_ffff_ffff_f000 == frame && (frame | flags)
        & !0x000f_ffff_ffff_f000u64 == flags && (frame | flags) & 0x80 == flags & 0x80 && (frame
        | flags) & 0x1 == flags & 0x1 && (flags != 0 ==> frame | flags != 0)) by (bit_vector)
        requires
            frame & 0x000f_ffff_ffff_f000 == frame,
            flags & 0x000f_ffff_ffff_f000 == 0,
    ;
}

/// Adding flags to an entry keeps its address, and keeps an entry in use in use.
pub proof fn lemma_entry_with_flags(entry: u64, flags: u64)
    requires
        is_flags(flags),
    ensures
        entry_address(entry | flags) == entry_address(entry),
        flags & HUGE_PAGE == 0 ==> is_huge(entry | flags) == is_huge(entry),
        flags & PRESENT != 0 ==> is_present(entry | flags),
        entry != 0 ==> entry | flags != 0,
        (entry | flags) | flags == entry | flags,
{
    assert((entry | flags) & 0x000f_ffff_ffff_f000 == entry & 0x000f_ffff_ffff_f000) by (bit_vector)
        requires
            flags & 0x000f_ffff_ffff_f000 == 0,
    ;
    assert(flags & 0x80 == 0 ==> (entry | flags) & 0x80 == entry & 0x80) by (bit_vector);
    assert(flags & 0x1 != 0 ==> (entry | flags) & 0x1 != 0) by (bit_vector);
    assert(entry != 0 ==> entry | flags != 0) by (bit_vector);
    assert((entry | flags) | flags == entry | flags) by (bit_vector);
}

/// The address that an entry holds is the start of a frame.
pub proof fn lemma_entry_address_is_frame(entry: u64)
    ensures
        is_page_aligned(entry_address(entry)),
        is_physical(entry_address(entry)),
{
    assert((entry & 0x000f_ffff_ffff_f000) % 4096 == 0 && (entry & 0x000f_ffff_ffff_f000)
        < 0x10_0000_0000_0000) by (bit_vector);
}

} // verus!
