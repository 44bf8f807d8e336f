use blog_os::memory::init_frame_allocator;
use blog_os::memory_map::{MemoryMap, MemoryRegion, MemoryRegionType};

fn region(start_addr: u64, end_addr: u64, region_type: MemoryRegionType) -> MemoryRegion {
    MemoryRegion { start_addr, end_addr, region_type }
}

fn all_frames(map: &MemoryMap) -> Vec<u64> {
    assert!(map.is_addressable());
    let mut allocator = init_frame_allocator(map);
    let mut frames = Vec::new();
    while let Some(frame) = allocator.allocate_frame() {
        frames.push(frame.start_address());
    }
    assert!(allocator.allocate_frame().is_none());
    frames
}

#[test]
fn single_usable_region_yields_256_frames() {
    let mut map = MemoryMap::new();
    map.add_region(region(0x100000, 0x200000, MemoryRegionType::Usable));
    assert!(map.is_addressable());
    let mut allocator = init_frame_allocator(&map);
    for i in 0..256u64 {
        let frame = allocator.allocate_frame().expect("a frame");
        assert_eq!(frame.start_address(), 0x100000 + i * 0x1000);
    }
    assert!(allocator.allocate_frame().is_none());
    assert!(allocator.allocate_frame().is_none());
}

#[test]
fn empty_map_is_exhausted_at_once() {
    let map = MemoryMap::new();
    assert_eq!(map.len(), 0);
    assert_eq!(all_frames(&map), Vec::<u64>::new());
}

#[test]
fn only_usable_regions_are_handed_out() {
    let mut map = MemoryMap::new();
    map.add_region(region(0x0, 0x1000, MemoryRegionType::FrameZero));
    map.add_region(region(0x1000, 0x3000, MemoryRegionType::Usable));
    map.add_region(region(0x3000, 0x8000, MemoryRegionType::Reserved));
    map.add_region(region(0x8000, 0x9000, MemoryRegionType::Kernel));
    map.add_region(region(0x9000, 0xa000, MemoryRegionType::PageTable));
    map.add_region(region(0xa000, 0xb000, MemoryRegionType::Bootloader));
    map.add_region(region(0xb000, 0xd000, MemoryRegionType::Usable));
    map.add_region(region(0xd000, 0xe000, MemoryRegionType::AcpiReclaimable));
    map.add_region(region(0xe000, 0xf000, MemoryRegionType::InUse));
    assert_eq!(map.len(), 9);
    assert_eq!(all_frames(&map), vec![0x1000, 0x2000, 0xb000, 0xc000]);
}

#[test]
fn frames_lie_in_usable_regions_rise_and_do_not_repeat() {
    let mut map = MemoryMap::new();
    map.add_region(region(0x10000, 0x14000, MemoryRegionType::Usable));
    map.add_region(region(0x14000, 0x20000, MemoryRegionType::BadMemory));
    map.add_region(region(0x20000, 0x23000, MemoryRegionType::Usable));
    map.add_region(region(0x400000, 0x402000, MemoryRegionType::Usable));
    let frames = all_frames(&map);
    assert_eq!(frames.len(), 4 + 3 + 2);
    for window in frames.windows(2) {
        assert!(window[0] < window[1]);
    }
    for frame in &frames {
        assert_eq!(frame % 4096, 0);
        let mut inside = false;
        for i in 0..map.len() {
            let r = map.region(i).expect("a region");
            if r.is_usable() && r.start_addr <= *frame && *frame < r.end_addr {
                inside = true;
            }
        }
        assert!(inside);
    }
}

#[test]
fn empty_and_reversed_regions_offer_nothing() {
    let mut map = MemoryMap::new();
    map.add_region(region(0x5000, 0x5000, MemoryRegionType::Usable));
    map.add_region(region(0x9000, 0x7000, MemoryRegionType::Usable));
    map.add_region(region(0xa000, 0xb000, MemoryRegionType::Usable));
    assert!(map.region(0).expect("a region").is_empty());
    assert!(map.region(1).expect("a region").is_empty());
    assert!(!map.region(2).expect("a region").is_empty());
    assert_eq!(map.region(3), None);
    assert_eq!(all_frames(&map), vec![0xa000]);
}

#[test]
fn region_that_ends_inside_a_page_offers_the_page() {
    let mut map = MemoryMap::new();
    map.add_region(region(0x3000, 0x4001, MemoryRegionType::Usable));
    assert_eq!(all_frames(&map), vec![0x3000, 0x4000]);
}

#[test]
fn unaligned_region_steps_from_its_start_and_aligns_each_frame_down() {
    let mut map = MemoryMap::new();
    map.add_region(region(0x1800, 0x3900, MemoryRegionType::Usable));
    assert_eq!(all_frames(&map), vec![0x1000, 0x2000, 0x3000]);
}

#[test]
fn addressable_up_to_the_end_of_physical_address_space() {
    let limit: u64 = 1 << 52;
    let mut inside = MemoryMap::new();
    inside.add_region(region(limit - 0x2000, limit, MemoryRegionType::Usable));
    assert!(inside.is_addressable());
    assert_eq!(all_frames(&inside), vec![limit - 0x2000, limit - 0x1000]);

    let mut beyond = MemoryMap::new();
    beyond.add_region(region(limit - 0x1000, limit + 1, MemoryRegionType::Usable));
    assert!(!beyond.is_addressable());
    assert!(!beyond.region(0).expect("a region").is_addressable());

    let mut unused = MemoryMap::new();
    unused.add_region(region(limit, limit + 0x1000, MemoryRegionType::Reserved));
    unused.add_region(region(u64::MAX, 5, MemoryRegionType::Usable));
    assert!(unused.is_addressable());
    assert_eq!(all_frames(&unused), Vec::<u64>::new());
}

#[test]
fn overlapping_regions_hand_a_frame_out_twice() {
    let mut map = MemoryMap::new();
    map.add_region(region(0x1000, 0x3000, MemoryRegionType::Usable));
    map.add_region(region(0x2000, 0x4000, MemoryRegionType::Usable));
    assert_eq!(all_frames(&map), vec![0x1000, 0x2000, 0x2000, 0x3000]);
}
