//! Tests of the memory subsystems: region normalization, the frame
//! bitmap, the boot bump allocator, alignment helpers, descriptors and
//! the boot-blob walker.

use kernel_core::bootalloc::BootAllocator;
use kernel_core::dtb;
use kernel_core::frame::FrameAllocator;
use kernel_core::layout;
use kernel_core::paging;
use kernel_core::region::{MemoryMap, PhysRange, RegionKind};
use kernel_core::trap::TrapFrame;

#[test]
fn align_helpers() {
    assert_eq!(layout::align_up(0, 4096), 0);
    assert_eq!(layout::align_up(1, 4096), 4096);
    assert_eq!(layout::align_up(4096, 4096), 4096);
    assert_eq!(layout::align_down(4097, 4096), 4096);
    assert_eq!(layout::align_down(4095, 4096), 0);
    assert_eq!(layout::phys_to_virt(0x1000), 0xFFFF_8000_0000_1000);
    assert_eq!(layout::virt_to_phys(0xFFFF_8000_0000_1000), 0x1000);
}

#[test]
fn normalization_priority_resolution() {
    // Overlapping usable RAM and a reserved span: the reserved kind wins
    // on the overlap, the rest stays usable. Spans are in whole frames
    // so the usable trim keeps them.
    let mut map = MemoryMap::new();
    map.add_region(0, 100 * 4096, RegionKind::UsableRam);
    map.add_region(50 * 4096, 100 * 4096, RegionKind::Reserved);
    let norm = map.normalize();
    let regions = norm.regions();
    assert_eq!(regions.len(), 2);
    assert_eq!(regions[0].start, 0);
    assert_eq!(regions[0].end, 50 * 4096);
    assert!(matches!(regions[0].kind, RegionKind::UsableRam));
    assert_eq!(regions[1].start, 50 * 4096);
    assert_eq!(regions[1].end, 150 * 4096);
    assert!(matches!(regions[1].kind, RegionKind::Reserved));
}

#[test]
fn normalization_disjoint_sorted() {
    let mut map = MemoryMap::new();
    map.add_region(0x30_0000, 0x10_0000, RegionKind::Mmio);
    map.add_region(0, 0x20_0000, RegionKind::UsableRam);
    map.add_region(0x10_0000, 0x8_0000, RegionKind::KernelImage);
    map.add_region(0x18_0000, 0x4_0000, RegionKind::BootStack);
    let norm = map.normalize();
    let regions = norm.regions();
    assert!(regions.len() >= 2);
    for i in 0..regions.len() {
        assert!(regions[i].start < regions[i].end);
        if i + 1 < regions.len() {
            assert!(regions[i].end <= regions[i + 1].start);
            assert!(regions[i].start < regions[i + 1].start);
        }
    }
}

#[test]
fn normalization_idempotent() {
    let mut map = MemoryMap::new();
    map.add_region(0, 0x100_0000, RegionKind::UsableRam);
    map.add_region(0x8_0000, 0x4_0000, RegionKind::KernelImage);
    map.add_region(0x40_0000, 0x1000, RegionKind::BootInfo);
    map.add_region(0x3F00_0000, 0x100_0000, RegionKind::Mmio);
    let first = map.normalize();
    let mut again = MemoryMap::new();
    for r in first.regions() {
        again.add_region(r.start, r.end - r.start, r.kind);
    }
    let second = again.normalize();
    let a = first.regions();
    let b = second.regions();
    assert_eq!(a.len(), b.len());
    for i in 0..a.len() {
        assert_eq!(a[i].start, b[i].start);
        assert_eq!(a[i].end, b[i].end);
        assert_eq!(a[i].kind, b[i].kind);
    }
}

#[test]
fn normalization_trims_partial_usable_frames() {
    let mut map = MemoryMap::new();
    map.add_region(100, 2 * 4096, RegionKind::UsableRam);
    let norm = map.normalize();
    let regions = norm.regions();
    assert_eq!(regions.len(), 1);
    assert_eq!(regions[0].start, 4096);
    assert_eq!(regions[0].end, 2 * 4096);
}

#[test]
fn usable_regions_and_max_end() {
    let mut map = MemoryMap::new();
    map.add_region(0, 0x4000, RegionKind::UsableRam);
    map.add_region(0x8000, 0x1000, RegionKind::Reserved);
    let norm = map.normalize();
    let usable = norm.usable_regions();
    assert_eq!(usable.len(), 1);
    assert_eq!(usable[0], PhysRange { start: 0, end: 0x4000 });
    assert_eq!(norm.max_phys_end(), 0x9000);
}

#[test]
fn bootalloc_bump_and_alignment() {
    let mut boot = BootAllocator::init(0x10_0010, 0x20_0000);
    let (s, c) = boot.used_range();
    assert_eq!(s, 0x10_1000);
    assert_eq!(c, 0x10_1000);
    let a = boot.alloc_bytes(10, 8).unwrap();
    assert_eq!(a, 0x10_1000);
    let b = boot.alloc_bytes(10, 8).unwrap();
    assert_eq!(b, 0x10_1010);
    let p = boot.alloc_pages(1).unwrap();
    assert_eq!(p % 4096, 0);
    // Exhaustion: more than the window holds.
    assert!(boot.alloc_bytes(0x100_0000, 8).is_none());
}

#[test]
fn frame_allocator_exhaustion() {
    // Eight usable frames, one of which holds the bitmap itself: every
    // allocatable frame comes out once, distinct and aligned, and the
    // next call fails.
    let mut map = MemoryMap::new();
    map.add_region(0, 8 * 4096, RegionKind::UsableRam);
    let norm = map.normalize();
    let mut boot = BootAllocator::init(4 * 4096, 8 * 4096);
    let mut alloc = FrameAllocator::init(&norm, &mut boot).unwrap();
    // The bitmap storage itself sits in the boot range, so frame 4 is
    // reserved and seven frames are allocatable.
    let mut got = Vec::new();
    for _ in 0..7 {
        let a = alloc.alloc_frame().unwrap();
        assert_eq!(a % 4096, 0);
        assert_ne!(a, 4 * 4096);
        assert!(!got.contains(&a));
        got.push(a);
    }
    assert!(alloc.alloc_frame().is_none());
}

#[test]
fn frame_free_and_reuse() {
    let mut map = MemoryMap::new();
    map.add_region(0, 8 * 4096, RegionKind::UsableRam);
    let norm = map.normalize();
    let mut boot = BootAllocator::init(4 * 4096, 8 * 4096);
    let mut alloc = FrameAllocator::init(&norm, &mut boot).unwrap();
    let a = alloc.alloc_frame().unwrap();
    let b = alloc.alloc_frame().unwrap();
    assert_ne!(a, b);
    alloc.free_frame(a);
    let c = alloc.alloc_frame().unwrap();
    assert_eq!(c, a);
}

#[test]
fn frame_contiguous_runs() {
    let mut map = MemoryMap::new();
    map.add_region(0, 16 * 4096, RegionKind::UsableRam);
    let norm = map.normalize();
    let mut boot = BootAllocator::init(8 * 4096, 16 * 4096);
    let mut alloc = FrameAllocator::init(&norm, &mut boot).unwrap();
    // Frame 8 holds the bitmap storage; 0..8 and 9..16 stay free.
    let run = alloc.alloc_contiguous(4).unwrap();
    assert_eq!(run, 0);
    // No run of eight consecutive free frames is left.
    assert!(alloc.alloc_contiguous(8).is_none());
    assert!(alloc.alloc_contiguous(0).is_none());
    let run2 = alloc.alloc_contiguous(4).unwrap();
    assert_eq!(run2, 4 * 4096);
}

#[test]
fn trap_frame_seed() {
    let f = TrapFrame::new(0x8_0000);
    assert_eq!(f.x.len(), 31);
    assert!(f.x.iter().all(|&v| v == 0));
    assert_eq!(f.elr, 0x8_0000);
    assert_eq!(f.spsr, 0x5);
    assert_eq!(f.sp_el0, 0);
    assert_eq!(kernel_core::trap::TRAP_FRAME_SIZE, 280);
    let sp = kernel_core::trap::init_frame_addr(0x1_0000);
    assert_eq!(sp % 16, 0);
    assert!(sp + 280 <= 0x1_0000);
}

#[test]
fn page_descriptors_bit_exact() {
    assert_eq!(paging::table_desc(0x1234_5000), 0x1234_5003);
    // A device block: valid block bits, attr 0, EL1 access, outer
    // shareability clear, access flag, both execute-never bits.
    let d = paging::block_desc(0x4000_0000, 0, 0, 0, true);
    assert_eq!(d, 0x0060_0000_4000_0401);
    // A normal RAM block: attr index 1, inner-shareable, executable.
    let n = paging::block_desc(0x20_0000, 1, 0, 3, false);
    assert_eq!(n, 0x20_0705);
}

#[test]
fn address_space_mapping() {
    let mut space = paging::AddressSpace::new();
    space.map_block(0x4000_0000, 0x4000_0000, 0, 0, 0, true);
    space.map_range(0, 0, 0x40_0000, 1, 1, 3, false);
    let mut map = MemoryMap::new();
    map.add_region(0, 0x40_0000, RegionKind::UsableRam);
    map.add_region(0x3F00_0000, 0x100_0000, RegionKind::Mmio);
    let norm = map.normalize();
    let pair = paging::init(&norm, Some((0x4000_0000, 0x20_0000)));
    let _ = pair.user;
    let _ = pair.kernel;
}

#[test]
fn boot_window_selection() {
    let mut map = MemoryMap::new();
    map.add_region(0, 0x10_0000, RegionKind::UsableRam);
    map.add_region(0x8_0000, 0x1000, RegionKind::KernelImage);
    let norm = map.normalize();
    // The window holding the address right after the kernel image runs
    // to that usable region's end.
    assert_eq!(norm.boot_window_end(0x9_0000), 0x10_0000);
    // An address outside every usable region falls back to the first
    // usable region's end.
    assert_eq!(norm.boot_window_end(0xFF00_0000), 0x8_0000);
    let empty = MemoryMap::new().normalize();
    assert_eq!(empty.boot_window_end(0x1000), 0);
}

#[test]
fn dtb_helpers_exact() {
    let bytes = [0xD0u8, 0x0D, 0xFE, 0xED, 0, 0, 0, 40];
    assert_eq!(dtb::read_be_u32(&bytes), 0xD00D_FEED);
    assert_eq!(dtb::align4(0), 0);
    assert_eq!(dtb::align4(1), 4);
    assert_eq!(dtb::align4(4), 4);
    assert_eq!(dtb::read_cells(&bytes[4..8], 1), 40);
    assert_eq!(dtb::read_cells(&bytes, 2), 0xD00D_FEED_0000_0028);
    assert!(dtb::name_starts_with(b"memory@0", b"memory"));
    assert!(!dtb::name_starts_with(b"mem", b"memory"));
    assert!(dtb::value_has_string(b"simple-framebuffer\0other\0", b"other"));
    assert!(!dtb::value_has_string(b"simple-framebuffer\0", b"simple"));
    assert_eq!(dtb::get_string(b"abc\0def\0", 4), b"def");
    assert_eq!(dtb::get_string(b"abc\0def\0", 99), b"");
}

#[test]
fn dtb_parse_memory_node() {
    // A minimal blob: one root node holding one memory node with a
    // single reg span of two+two cells.
    let mut strings: Vec<u8> = Vec::new();
    let device_type_off = strings.len() as u32;
    strings.extend_from_slice(b"device_type\0");
    let reg_off = strings.len() as u32;
    strings.extend_from_slice(b"reg\0");

    let mut structure: Vec<u8> = Vec::new();
    let push32 = |v: u32, out: &mut Vec<u8>| out.extend_from_slice(&v.to_be_bytes());
    push32(1, &mut structure);  // begin root
    structure.extend_from_slice(b"\0\0\0\0");
    push32(1, &mut structure);  // begin memory@0
    structure.extend_from_slice(b"memory@0\0\0\0\0");
    push32(3, &mut structure);  // prop device_type = "memory"
    push32(7, &mut structure);
    push32(device_type_off, &mut structure);
    structure.extend_from_slice(b"memory\0\0");
    push32(3, &mut structure);  // prop reg = <0x0 0x0 0x0 0x40000000>
    push32(16, &mut structure);
    push32(reg_off, &mut structure);
    push32(0, &mut structure);
    push32(0, &mut structure);
    push32(0, &mut structure);
    push32(0x4000_0000, &mut structure);
    push32(2, &mut structure);  // end memory@0
    push32(2, &mut structure);  // end root
    push32(9, &mut structure);  // end of structure

    let mut blob: Vec<u8> = vec![0; 40];
    let struct_off = blob.len();
    blob.extend_from_slice(&structure);
    let strings_off = blob.len();
    blob.extend_from_slice(&strings);
    let total = blob.len() as u32;
    blob[0..4].copy_from_slice(&0xD00D_FEEDu32.to_be_bytes());
    blob[4..8].copy_from_slice(&total.to_be_bytes());
    blob[8..12].copy_from_slice(&(struct_off as u32).to_be_bytes());
    blob[12..16].copy_from_slice(&(strings_off as u32).to_be_bytes());
    blob[32..36].copy_from_slice(&(strings.len() as u32).to_be_bytes());
    blob[36..40].copy_from_slice(&(structure.len() as u32).to_be_bytes());

    let mut map = MemoryMap::new();
    let info = dtb::parse(&blob, &mut map).unwrap();
    assert_eq!(info.total_size, total);
    let regions = map.regions();
    assert_eq!(regions.len(), 1);
    assert_eq!(regions[0].start, 0);
    assert_eq!(regions[0].end, 0x4000_0000);
    assert!(matches!(regions[0].kind, RegionKind::UsableRam));

    // A blob with the wrong magic is rejected and adds nothing.
    let mut bad = blob.clone();
    bad[0] = 0;
    let mut map2 = MemoryMap::new();
    assert!(dtb::parse(&bad, &mut map2).is_none());
    assert_eq!(map2.regions().len(), 0);
}

#[test]
fn dtb_find_uart_via_alias() {
    let mut strings: Vec<u8> = Vec::new();
    let serial0_off = strings.len() as u32;
    strings.extend_from_slice(b"serial0\0");
    let clock_off = strings.len() as u32;
    strings.extend_from_slice(b"clock-frequency\0");
    let reg_off = strings.len() as u32;
    strings.extend_from_slice(b"reg\0");

    let push32 = |v: u32, out: &mut Vec<u8>| out.extend_from_slice(&v.to_be_bytes());
    let mut st: Vec<u8> = Vec::new();
    push32(1, &mut st);  // begin root
    st.extend_from_slice(b"\0\0\0\0");
    push32(1, &mut st);  // begin aliases
    st.extend_from_slice(b"aliases\0");
    push32(3, &mut st);  // prop serial0 = "/uart@3f201000"
    push32(15, &mut st);
    push32(serial0_off, &mut st);
    st.extend_from_slice(b"/uart@3f201000\0\0");
    push32(2, &mut st);  // end aliases
    push32(1, &mut st);  // begin uart@3f201000
    st.extend_from_slice(b"uart@3f201000\0\0\0");
    push32(3, &mut st);  // prop clock-frequency
    push32(4, &mut st);
    push32(clock_off, &mut st);
    push32(48_000_000, &mut st);
    push32(3, &mut st);  // prop reg = <0 0x3f201000 0 0x1000>
    push32(16, &mut st);
    push32(reg_off, &mut st);
    push32(0, &mut st);
    push32(0x3F20_1000, &mut st);
    push32(0, &mut st);
    push32(0x1000, &mut st);
    push32(2, &mut st);  // end uart
    push32(2, &mut st);  // end root
    push32(9, &mut st);  // end of structure

    let mut blob: Vec<u8> = vec![0; 40];
    let struct_off = blob.len();
    blob.extend_from_slice(&st);
    let strings_off = blob.len();
    blob.extend_from_slice(&strings);
    let total = blob.len() as u32;
    blob[0..4].copy_from_slice(&0xD00D_FEEDu32.to_be_bytes());
    blob[4..8].copy_from_slice(&total.to_be_bytes());
    blob[8..12].copy_from_slice(&(struct_off as u32).to_be_bytes());
    blob[12..16].copy_from_slice(&(strings_off as u32).to_be_bytes());
    blob[32..36].copy_from_slice(&(strings.len() as u32).to_be_bytes());
    blob[36..40].copy_from_slice(&(st.len() as u32).to_be_bytes());

    let info = dtb::find_uart(&blob).unwrap();
    assert_eq!(info.addr, 0x3F20_1000);
    assert_eq!(info.size, 0x1000);
    assert_eq!(info.clock_hz, Some(48_000_000));
    assert_eq!(info.reg_shift, 0);
    assert_eq!(info.reg_io_width, 4);
    assert!(!info.skip_init);

    assert!(dtb::find_uart(&blob[0..8]).is_none());
}
