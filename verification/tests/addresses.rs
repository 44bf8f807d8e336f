use blog_os::addr::{Frame, Page, PageTableLevel, PAGE_SIZE, PHYS_ADDR_LIMIT};
use blog_os::mapper::{phys_to_virt, try_phys_to_virt};
use blog_os::memory::active_level_4_table;

#[test]
fn constants_of_the_address_space() {
    assert_eq!(PAGE_SIZE, 4096);
    assert_eq!(PHYS_ADDR_LIMIT, 1 << 52);
}

#[test]
fn frame_holds_its_address_aligned_down() {
    assert_eq!(Frame::containing_address(0xb8000).start_address(), 0xb8000);
    assert_eq!(Frame::containing_address(0xb8fff).start_address(), 0xb8000);
    assert_eq!(Frame::containing_address(0xb9000).start_address(), 0xb9000);
    assert_eq!(Frame::containing_address(0).start_address(), 0);
    assert_eq!(Frame::containing_address(4095).start_address(), 0);
    assert_eq!(
        Frame::containing_address((1 << 52) - 1).start_address(),
        (1 << 52) - 4096
    );
    assert_eq!(Frame::containing_address(0x1234), Frame::containing_address(0x1000));
    assert_ne!(Frame::containing_address(0x1234), Frame::containing_address(0x2000));
}

#[test]
fn frame_agrees_with_the_x86_64_crate() {
    for addr in [0u64, 1, 4095, 4096, 0xb8000, 0xdead_beef, (1 << 52) - 1] {
        let theirs: x86_64::structures::paging::PhysFrame =
            x86_64::structures::paging::PhysFrame::containing_address(x86_64::PhysAddr::new(addr));
        assert_eq!(
            Frame::containing_address(addr).start_address(),
            theirs.start_address().as_u64()
        );
    }
}

#[test]
fn page_holds_its_address_aligned_down() {
    assert_eq!(Page::containing_address(0xdeadbeaf000).start_address(), 0xdeadbeaf000);
    assert_eq!(Page::containing_address(0xdeadbeaf123).start_address(), 0xdeadbeaf000);
    assert_eq!(Page::containing_address(0).start_address(), 0);
    assert_eq!(
        Page::containing_address(0x0000_7fff_ffff_ffff).start_address(),
        0x0000_7fff_ffff_f000
    );
    assert_eq!(
        Page::containing_address(0xffff_8000_0000_0abc).start_address(),
        0xffff_8000_0000_0000
    );
    assert_eq!(
        Page::containing_address(u64::MAX).start_address(),
        0xffff_ffff_ffff_f000
    );
}

#[test]
fn page_is_refused_for_an_address_that_is_not_canonical() {
    assert_eq!(Page::try_containing_address(0x0000_8000_0000_0000), None);
    assert_eq!(Page::try_containing_address(0xffff_7fff_ffff_ffff), None);
    assert_eq!(Page::try_containing_address(0x1234_0000_0000_0000), None);
    assert_eq!(
        Page::try_containing_address(0x0000_7fff_ffff_ffff),
        Some(Page::containing_address(0x0000_7fff_ffff_f000))
    );
    assert_eq!(
        Page::try_containing_address(0xffff_8000_0000_0000),
        Some(Page::containing_address(0xffff_8000_0000_0000))
    );
    assert_eq!(
        Page::try_containing_address(0xdeadbeaf321),
        Some(Page::containing_address(0xdeadbeaf000))
    );
}

#[test]
fn table_indices_of_the_example_page() {
    let page = Page::containing_address(0xdeadbeaf000);
    assert_eq!(page.table_index(PageTableLevel::Four), 27);
    assert_eq!(page.table_index(PageTableLevel::Three), 427);
    assert_eq!(page.table_index(PageTableLevel::Two), 223);
    assert_eq!(page.table_index(PageTableLevel::One), 175);
}

#[test]
fn table_indices_at_the_edges() {
    let first = Page::containing_address(0);
    let last = Page::containing_address(u64::MAX);
    for level in [
        PageTableLevel::One,
        PageTableLevel::Two,
        PageTableLevel::Three,
        PageTableLevel::Four,
    ] {
        assert_eq!(first.table_index(level), 0);
        assert_eq!(last.table_index(level), 511);
    }
    let page = Page::containing_address(0x0000_0080_4020_1000);
    assert_eq!(page.table_index(PageTableLevel::Four), 1);
    assert_eq!(page.table_index(PageTableLevel::Three), 1);
    assert_eq!(page.table_index(PageTableLevel::Two), 1);
    assert_eq!(page.table_index(PageTableLevel::One), 1);
}

#[test]
fn table_indices_agree_with_the_x86_64_crate() {
    for addr in [
        0u64,
        0x1000,
        0xdeadbeaf000,
        0x0000_7fff_ffff_f000,
        0xffff_8000_0000_0000,
        0xffff_ffff_ffff_f000,
        0x0000_1234_5678_9000,
    ] {
        let page = Page::containing_address(addr);
        let theirs = x86_64::VirtAddr::new(addr);
        assert_eq!(page.table_index(PageTableLevel::Four), usize::from(theirs.p4_index()));
        assert_eq!(page.table_index(PageTableLevel::Three), usize::from(theirs.p3_index()));
        assert_eq!(page.table_index(PageTableLevel::Two), usize::from(theirs.p2_index()));
        assert_eq!(page.table_index(PageTableLevel::One), usize::from(theirs.p1_index()));
    }
}

#[test]
fn levels_step_down_to_one() {
    assert_eq!(PageTableLevel::Four.next_lower_level(), Some(PageTableLevel::Three));
    assert_eq!(PageTableLevel::Three.next_lower_level(), Some(PageTableLevel::Two));
    assert_eq!(PageTableLevel::Two.next_lower_level(), Some(PageTableLevel::One));
    assert_eq!(PageTableLevel::One.next_lower_level(), None);
}

#[test]
fn frames_are_seen_through_the_window() {
    let frame = Frame::containing_address(0x1000);
    assert_eq!(phys_to_virt(0xffff_8000_0000_0000, frame), 0xffff_8000_0000_1000);
    assert_eq!(phys_to_virt(0, frame), 0x1000);
    assert_eq!(try_phys_to_virt(0xffff_8000_0000_0000, frame), Some(0xffff_8000_0000_1000));
    assert_eq!(try_phys_to_virt(0x10_0000_0000, frame), Some(0x10_0000_1000));
    assert_eq!(active_level_4_table(0x10_0000_0000, frame), 0x10_0000_1000);
}

#[test]
fn frames_outside_the_window_are_refused() {
    let frame = Frame::containing_address(0x1000);
    assert_eq!(try_phys_to_virt(0x0000_7fff_ffff_f000, frame), None);
    assert_eq!(try_phys_to_virt(0x0000_7fff_ffff_e000, frame), Some(0x0000_7fff_ffff_f000));
    assert_eq!(try_phys_to_virt(u64::MAX, frame), None);
    assert_eq!(try_phys_to_virt(0xffff_ffff_ffff_f000, frame), None);
    assert_eq!(
        try_phys_to_virt(0xffff_ffff_ffff_e000, frame),
        Some(0xffff_ffff_ffff_f000)
    );
    assert_eq!(try_phys_to_virt(0x1234_0000_0000_0000, frame), None);
}
