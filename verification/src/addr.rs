//! Physical and virtual addresses, and the 4 KiB frames and pages they fall into.

use vstd::prelude::*;

verus! {

/// Size in bytes of a page and of a frame.
pub const PAGE_SIZE: u64 = 4096;

/// Physical addresses have 52 bits: this is the first value that is none.
pub const PHYS_ADDR_LIMIT: u64 = 0x10_0000_0000_0000;

/// Whether `addr` is a multiple of the page size.
pub open spec fn is_page_aligned(addr: u64) -> bool {
    addr % 4096 == 0
}

/// The greatest page-aligned address that is not above `addr`.
pub open spec fn align_down(addr: u64) -> u64 {
    (addr - addr % 4096) as u64
}

/// Whether `addr` is a valid physical address: its bits 52 to 63 are zero.
pub open spec fn is_physical(addr: u64) -> bool {
    addr < PHYS_ADDR_LIMIT
}

/// Whether `addr` is the start of a frame: a page-aligned physical address.
pub open spec fn is_frame(addr: u64) -> bool {
    is_page_aligned(addr) && is_physical(addr)
}

/// Whether `addr` is a canonical virtual address: its bits 48 to 63 are
/// copies of bit 47.
pub open spec fn is_canonical(addr: u64) -> bool {
    addr < 0x8000_0000_0000 || addr >= 0xffff_8000_0000_0000
}

/// Start of the frame that holds a physical address, computed by
/// `x86_64::structures::paging::PhysFrame::containing_address` on the
/// `x86_64::PhysAddr` made from `addr`. `PhysAddr::new` panics on an address
/// with a bit above bit 51 set, hence the precondition; the frame starts at
/// `addr` with its low twelve bits cleared.
#[verifier::external_body]
pub(crate) fn frame_start_containing(addr: u64) -> (start: u64)
    requires
        is_physical(addr),
    ensures
        start == align_down(addr),
{
    let address = x86_64::PhysAddr::new(addr);
    let frame: x86_64::structures::paging::PhysFrame = x86_64::structures::paging::PhysFrame::containing_address(address);
    frame.start_address().as_u64()
}

/// Start of the page that holds a virtual address, computed by
/// `x86_64::structures::paging::Page::containing_address` on the
/// `x86_64::VirtAddr` made from `addr`. `VirtAddr::new` panics on an address
/// that is not canonical, hence the precondition; the page starts at `addr`
/// with its low twelve bits cleared.
#[verifier::external_body]
pub(crate) fn page_start_containing(addr: u64) -> (start: u64)
    requires
        is_canonical(addr),
    ensures
        start == align_down(addr),
{
    let address = x86_64::VirtAddr::new(addr);
    let page: x86_64::structures::paging::Page = x86_64::structures::paging::Page::containing_address(address);
    page.start_address().as_u64()
}

/// Whether `x86_64::VirtAddr::try_new` accepts `addr`: it does so for the
/// canonical addresses and for no others.
#[verifier::external_body]
pub(crate) fn virt_addr_accepted(addr: u64) -> (accepted: bool)
    ensures
        accepted == is_canonical(addr),
{
    x86_64::VirtAddr::try_new(addr).is_ok()
}

/// The index that `x86_64::VirtAddr::page_table_index` gives for the table of
/// `level` on the way to `addr`: the nine bits of the address that select the
/// entry in a table of that level. `VirtAddr::new` panics on an address that
/// is not canonical, hence the precondition.
#[verifier::external_body]
pub(crate) fn page_table_index(addr: u64, level: PageTableLevel) -> (index: u16)
    requires
        is_canonical(addr),
    ensures
        index == spec_page_table_index(addr, level),
{
    let level = match level {
        PageTableLevel::One => x86_64::structures::paging::page_table::PageTableLevel::One,
        PageTableLevel::Two => x86_64::structures::paging::page_table::PageTableLevel::Two,
        PageTableLevel::Three => x86_64::structures::paging::page_table::PageTableLevel::Three,
        PageTableLevel::Four => x86_64::structures::paging::page_table::PageTableLevel::Four,
    };
    u16::from(x86_64::VirtAddr::new(addr).page_table_index(level))
}

/// The level of a page table in the tree of four levels: the root has level
/// four, the tables whose entries point to the mapped frames have level one.
#[derive(Clone, Copy, Debug, PartialEq, Eq, Structural)]
pub enum PageTableLevel {
    /// A table whose entries map pages to frames.
    One,
    /// A table whose entries point to tables of level one.
    Two,
    /// A table whose entries point to tables of level two.
    Three,
    /// The root table.
    Four,
}

impl PageTableLevel {
    /// The level as a number from 1 to 4.
    pub open spec fn number(self) -> nat {
        match self {
            PageTableLevel::One => 1,
            PageTableLevel::Two => 2,
            PageTableLevel::Three => 3,
            PageTableLevel::Four => 4,
        }
    }

    /// The level below, if there is one.
    pub open spec fn spec_next_lower_level(self) -> Option<PageTableLevel> {
        match self {
            PageTableLevel::One => None,
            PageTableLevel::Two => Some(PageTableLevel::One),
            PageTableLevel::Three => Some(PageTableLevel::Two),
            PageTableLevel::Four => Some(PageTableLevel::Three),
        }
    }

    /// The level below, if there is one.
    pub fn next_lower_level(self) -> (lower: Option<PageTableLevel>)
        ensures
            lower == self.spec_next_lower_level(),
    {
        match self {
            PageTableLevel::One => None,
            PageTableLevel::Two => Some(PageTableLevel::One),
            PageTableLevel::Three => Some(PageTableLevel::Two),
            PageTableLevel::Four => Some(PageTableLevel::Three),
        }
    }
}

/// The index of the entry that the walk to `addr` goes through in a table of
/// `level`: bits 12 to 20 of the address for level one, and the next nine
/// bits above for each level further up.
pub open spec fn spec_page_table_index(addr: u64, level: PageTableLevel) -> u16 {
    match level {
        PageTableLevel::One => ((addr >> 12) & 0x1ff) as u16,
        PageTableLevel::Two => ((addr >> 21) & 0x1ff) as u16,
        PageTableLevel::Three => ((addr >> 30) & 0x1ff) as u16,
        PageTableLevel::Four => ((addr >> 39) & 0x1ff) as u16,
    }
}

/// An index into a page table is below the number of its entries.
pub proof fn lemma_page_table_index_bound(addr: u64, level: PageTableLevel)
    ensures
        spec_page_table_index(addr, level) < 512,
{
    assert(((addr >> 12) & 0x1ff) < 512) by (bit_vector);
    assert(((addr >> 21) & 0x1ff) < 512) by (bit_vector);
    assert(((addr >> 30) & 0x1ff) < 512) by (bit_vector);
    assert(((addr >> 39) & 0x1ff) < 512) by (bit_vector);
}

/// A 4 KiB frame of physical memory, known by its start address.
#[derive(Clone, Copy, Debug, PartialEq, Eq, Structural)]
pub struct Frame {
    start_address: u64,
}

impl Frame {
    #[verifier::type_invariant]
    spec fn aligned_and_physical(self) -> bool {
        is_page_aligned(self.start_address) && is_physical(self.start_address)
    }

    /// The frame's start address.
    pub closed spec fn start(self) -> u64 {
        self.start_address
    }

    /// Whether the value is a frame: its start is page-aligned and a physical address.
    pub open spec fn wf(self) -> bool {
        is_frame(self.start())
    }

    /// The frame that starts at `start`.
    pub closed spec fn spec_from_start(start: u64) -> Frame {
        Frame { start_address: start }
    }

    /// A frame is known by its start.
    pub proof fn lemma_from_start(self)
        ensures
            self == Frame::spec_from_start(self.start()),
            forall|start: u64| #[trigger] Frame::spec_from_start(start).start() == start,
    {
    }

    /// The frame that holds the physical address `addr`.
    pub fn containing_address(addr: u64) -> (frame: Frame)
        requires
            is_physical(addr),
        ensures
            frame.wf(),
            frame.start() == align_down(addr),
            frame == Frame::spec_from_start(align_down(addr)),
    {
        let start: u64 = frame_start_containing(addr);
        Frame { start_address: start }
    }

    /// The frame's start address.
    pub fn start_address(&self) -> (addr: u64)
        ensures
            addr == self.start(),
            self.wf(),
    {
        proof {
            use_type_invariant(self);
        }
        self.start_address
    }
}

/// A 4 KiB page of virtual memory, known by its start address.
#[derive(Clone, Copy, Debug, PartialEq, Eq, Structural)]
pub struct Page {
    start_address: u64,
}

impl Page {
    #[verifier::type_invariant]
    spec fn aligned_and_canonical(self) -> bool {
        is_page_aligned(self.start_address) && is_canonical(self.start_address)
    }

    /// The page's start address.
    pub closed spec fn start(self) -> u64 {
        self.start_address
    }

    /// Whether the value is a page: its start is page-aligned and canonical.
    pub open spec fn wf(self) -> bool {
        is_page_aligned(self.start()) && is_canonical(self.start())
    }

    /// The page that starts at `start`.
    pub closed spec fn spec_from_start(start: u64) -> Page {
        Page { start_address: start }
    }

    /// A page is known by its start.
    pub proof fn lemma_from_start(self)
        ensures
            self == Page::spec_from_start(self.start()),
            forall|start: u64| #[trigger] Page::spec_from_start(start).start() == start,
    {
    }

    /// The page that holds the virtual address `addr`.
    pub fn containing_address(addr: u64) -> (page: Page)
        requires
            is_canonical(addr),
        ensures
            page.wf(),
            page.start() == align_down(addr),
            page == Page::spec_from_start(align_down(addr)),
    {
        let start: u64 = page_start_containing(addr);
        Page { start_address: start }
    }

    /// The page that holds the virtual address `addr`, or `None` if `addr` is
    /// not canonical.
    pub fn try_containing_address(addr: u64) -> (page: Option<Page>)
        ensures
            match page {
                Some(p) => is_canonical(addr) && p.wf() && p.start() == align_down(addr),
                None => !is_canonical(addr),
            },
    {
        if virt_addr_accepted(addr) {
            Some(Page::containing_address(addr))
        } else {
            None
        }
    }

    /// The page's start address.
    pub fn start_address(&self) -> (addr: u64)
        ensures
            addr == self.start(),
            self.wf(),
    {
        proof {
            use_type_invariant(self);
        }
        self.start_address
    }

    /// The index of the entry that leads to this page in a table of `level`.
    pub fn table_index(&self, level: PageTableLevel) -> (index: usize)
        ensures
            index == spec_page_table_index(self.start(), level),
            index < 512,
    {
        proof {
            use_type_invariant(self);
            lemma_page_table_index_bound(self.start_address, level);
        }
        let index: u16 = page_table_index(self.start_address, level);
        index as usize
    }
}

} // verus!
