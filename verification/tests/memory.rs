use aether::memory::address::{offset, to_phys, to_virt, AddressError};
use aether::memory::frame_allocator::{self, map_ok_checked, PhysFrameAllocator};
use aether::memory::map::{usable, usable_checked, MemmapEntry, MEMMAP_USABLE};

const RESERVED: u64 = 1;

fn entry(base: u64, length: u64, kind: u64) -> MemmapEntry {
    MemmapEntry { base, length, kind }
}

fn drain(a: &mut PhysFrameAllocator<'_>, n: usize) -> Vec<Option<u64>> {
    (0..n).map(|_| a.allocate_frame()).collect()
}

#[test]
fn allocates_consecutive_frames_from_usable_regions() {
    let map = vec![
        entry(0x0, 0x1000, RESERVED),
        entry(0x10_0000, 0x2000, MEMMAP_USABLE),
        entry(0x20_0000, 0x5000, RESERVED),
        entry(0x40_0000, 0x1000, MEMMAP_USABLE),
    ];
    let mut a = frame_allocator::init(&map);
    assert_eq!(
        drain(&mut a, 5),
        vec![Some(0x10_0000), Some(0x10_1000), Some(0x40_0000), None, None]
    );
}

#[test]
fn empty_map_has_no_frames() {
    let mut a = frame_allocator::init(&[]);
    assert_eq!(a.allocate_frame(), None);
    let reserved = [entry(0x1000, 0x8000, RESERVED)];
    let mut b = frame_allocator::init(&reserved);
    assert_eq!(b.allocate_frame(), None);
}

#[test]
fn partial_last_frame_is_handed_out() {
    // The region ends 0x800 bytes into its second frame: that frame starts
    // inside the region, so it is handed out.
    let map = [entry(0x3000, 0x1800, MEMMAP_USABLE)];
    let mut a = frame_allocator::init(&map);
    assert_eq!(drain(&mut a, 3), vec![Some(0x3000), Some(0x4000), None]);
}

#[test]
fn unaligned_addresses_give_their_containing_frame() {
    let map = [entry(0x5800, 0x2000, MEMMAP_USABLE)];
    let mut a = frame_allocator::init(&map);
    assert_eq!(drain(&mut a, 3), vec![Some(0x5000), Some(0x6000), None]);
}

#[test]
fn frames_are_never_repeated() {
    let map = vec![
        entry(0x1000, 0x3000, MEMMAP_USABLE),
        entry(0x8000, 0x1000, 2),
        entry(0x9000, 0x2000, MEMMAP_USABLE),
    ];
    let mut a = frame_allocator::init(&map);
    let frames: Vec<u64> = drain(&mut a, 10).into_iter().flatten().collect();
    assert_eq!(frames, vec![0x1000, 0x2000, 0x3000, 0x9000, 0xA000]);
    for (i, x) in frames.iter().enumerate() {
        for y in &frames[i + 1..] {
            assert_ne!(x, y);
        }
    }
}

#[test]
fn usable_sums_all_regions_in_mib() {
    let map = [
        entry(0, 0x10_0000, MEMMAP_USABLE),
        entry(0x10_0000, 0x30_0000, RESERVED),
        entry(0x40_0000, 0x8_0000, MEMMAP_USABLE),
    ];
    assert_eq!(usable(&map), 4);
    assert_eq!(usable(&[]), 0);
    assert_eq!(usable(&map[..1]), 1);
    assert_eq!(usable(&[entry(0, 0xF_FFFF, MEMMAP_USABLE)]), 0);
}

#[test]
fn to_virt_adds_the_direct_map_offset() {
    let hhdm = 0xFFFF_8000_0000_0000;
    assert_eq!(to_virt(0x1000, hhdm), Ok(0xFFFF_8000_0000_1000));
    assert_eq!(to_virt(0x1000, 0), Ok(0x1000));
    assert_eq!(to_virt(0x8000_0000_0000, 0), Err(AddressError::NonCanonical));
    assert_eq!(to_virt(u64::MAX, 1), Err(AddressError::Overflow));
}

#[test]
fn to_phys_subtracts_the_direct_map_offset() {
    let hhdm = 0xFFFF_8000_0000_0000;
    assert_eq!(to_phys(0xFFFF_8000_0000_1000, hhdm), Ok(0x1000));
    assert_eq!(to_phys(0x1000, hhdm), Err(AddressError::Underflow));
    assert_eq!(to_phys(0x0010_0000_0000_0000, 0), Err(AddressError::NotPhysical));
    assert_eq!(to_phys(0x000F_FFFF_FFFF_FFFF, 0), Ok(0x000F_FFFF_FFFF_FFFF));
}

#[test]
fn translation_round_trips() {
    let hhdm = 0xFFFF_8000_0000_0000;
    for phys in [0u64, 0x1000, 0xFEE0_0000, 0x7FFF_FFFF_FFFF] {
        let virt = to_virt(phys, hhdm).unwrap();
        assert_eq!(to_phys(virt, hhdm), Ok(phys));
    }
}

#[test]
fn offset_moves_within_canonical_space() {
    assert_eq!(offset(0xFFFF_8000_0000_0000, 0xF0), Ok(0xFFFF_8000_0000_00F0));
    assert_eq!(offset(0x7FFF_FFFF_F000, 0x1000), Err(AddressError::NonCanonical));
    assert_eq!(offset(u64::MAX, 1), Err(AddressError::Overflow));
}

#[test]
fn map_check_accepts_usable_regions_below_the_physical_limit() {
    let map = [
        entry(0x10_0000, 0x2000, MEMMAP_USABLE),
        entry(0xF_FFFF_FFFF_F000, 0x1000, MEMMAP_USABLE),
        entry(u64::MAX - 0xFFF, 0x1000, RESERVED),
    ];
    assert!(map_ok_checked(&map));
    assert!(map_ok_checked(&[]));
}

#[test]
fn map_check_refuses_usable_regions_past_the_physical_limit() {
    assert!(!map_ok_checked(&[entry(0xF_FFFF_FFFF_F000, 0x1001, MEMMAP_USABLE)]));
    assert!(!map_ok_checked(&[entry(0x10_0000_0000_0000, 1, MEMMAP_USABLE)]));
    assert!(map_ok_checked(&[entry(0x10_0000_0000_0000, 0, MEMMAP_USABLE)]));
    assert!(!map_ok_checked(&[entry(u64::MAX, u64::MAX, MEMMAP_USABLE)]));
}

#[test]
fn exhausted_allocator_keeps_returning_none() {
    let map = [entry(0x2000, 0x1000, MEMMAP_USABLE), entry(0x9000, 0x1000, RESERVED)];
    let mut a = frame_allocator::init(&map);
    assert_eq!(drain(&mut a, 5), vec![Some(0x2000), None, None, None, None]);
}

#[test]
fn checked_size_refuses_an_overflowing_map() {
    let map = [entry(0, 3 << 20, MEMMAP_USABLE), entry(0, (1 << 20) - 1, RESERVED)];
    assert_eq!(usable_checked(&map), Some(3));
    assert_eq!(usable_checked(&[]), Some(0));
    let huge = [entry(0, u64::MAX, MEMMAP_USABLE), entry(0, 1, RESERVED)];
    assert_eq!(usable_checked(&huge), None);
}
