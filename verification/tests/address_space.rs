use task_kernel::config::PAGE_SIZE;
use task_kernel::mm::address::{page_count, VirtAddr, VirtPageNum};
use task_kernel::mm::area::MapPermission;
use task_kernel::mm::memory_set::{MemorySet, MmError, PhysAddr};

fn rw_user() -> MapPermission {
    MapPermission { r: true, w: true, x: false, u: true }
}

#[test]
fn address_arithmetic() {
    assert_eq!(VirtAddr(0).floor(), VirtPageNum(0));
    assert_eq!(VirtAddr(4095).floor(), VirtPageNum(0));
    assert_eq!(VirtAddr(4096).floor(), VirtPageNum(1));
    assert_eq!(VirtAddr(4095).ceil(), VirtPageNum(1));
    assert_eq!(VirtAddr(4096).ceil(), VirtPageNum(1));
    assert_eq!(VirtAddr(4097).ceil(), VirtPageNum(2));
    assert_eq!(VirtAddr(0x1234).page_offset(), 0x234);
    assert!(VirtAddr(0x3000).aligned());
    assert!(!VirtAddr(0x3001).aligned());
    assert_eq!(VirtAddr(usize::MAX).ceil(), VirtPageNum(usize::MAX / PAGE_SIZE + 1));
}

#[test]
fn page_count_rounds_up() {
    assert_eq!(page_count(0), 0);
    assert_eq!(page_count(1), 1);
    assert_eq!(page_count(4096), 1);
    assert_eq!(page_count(4097), 2);
    assert_eq!(page_count(3 * 4096), 3);
}

#[test]
fn page_base_of_last_page() {
    let last = VirtPageNum(usize::MAX / PAGE_SIZE);
    assert_eq!(last.base(), Some(VirtAddr(usize::MAX - 4095)));
    assert_eq!(VirtPageNum(usize::MAX / PAGE_SIZE + 1).base(), None);
    assert_eq!(VirtPageNum(3).base(), Some(VirtAddr(0x3000)));
}

#[test]
fn permission_from_port_bits() {
    assert_eq!(MapPermission::from_port(1), MapPermission { r: true, w: false, x: false, u: true });
    assert_eq!(MapPermission::from_port(2), MapPermission { r: false, w: true, x: false, u: true });
    assert_eq!(MapPermission::from_port(4), MapPermission { r: false, w: false, x: true, u: true });
    assert_eq!(MapPermission::from_port(7), MapPermission { r: true, w: true, x: true, u: true });
    assert_eq!(MapPermission::empty(), MapPermission { r: false, w: false, x: false, u: false });
}

#[test]
fn bare_space_maps_nothing() {
    let ms = MemorySet::new_bare(VirtAddr(0x10_0000));
    assert_eq!(ms.heap_bottom(), 0x10_0000);
    assert_eq!(ms.program_brk(), 0x10_0000);
    assert_eq!(ms.translate(VirtAddr(0x10_0000)), Err(MmError::Unmapped));
    assert_eq!(ms.translate(VirtAddr(0)), Err(MmError::Unmapped));
    assert!(ms.is_range_free(0, usize::MAX / PAGE_SIZE + 1));
}

#[test]
fn bare_space_aligns_heap_bottom_down() {
    let ms = MemorySet::new_bare(VirtAddr(0x10_0123));
    assert_eq!(ms.heap_bottom(), 0x10_0000);
    assert_eq!(ms.program_brk(), 0x10_0000);
}

#[test]
fn insert_then_translate() {
    let mut ms = MemorySet::new_bare(VirtAddr(0x10_0000));
    assert_eq!(ms.insert_framed_area(VirtAddr(0x2000), VirtAddr(0x4000), rw_user()), Ok(()));
    assert_eq!(
        ms.translate(VirtAddr(0x2000)),
        Ok(PhysAddr { area: 1, page: 0, offset: 0 })
    );
    assert_eq!(
        ms.translate(VirtAddr(0x3abc)),
        Ok(PhysAddr { area: 1, page: 1, offset: 0xabc })
    );
    assert_eq!(ms.translate(VirtAddr(0x4000)), Err(MmError::Unmapped));
    assert_eq!(ms.translate(VirtAddr(0x1fff)), Err(MmError::Unmapped));
    assert_eq!(ms.find_area(2), Some(1));
    assert_eq!(ms.find_area(4), None);
}

#[test]
fn insert_rounds_to_pages() {
    let mut ms = MemorySet::new_bare(VirtAddr(0x10_0000));
    assert_eq!(ms.insert_framed_area(VirtAddr(0x2010), VirtAddr(0x3001), rw_user()), Ok(()));
    assert!(ms.translate(VirtAddr(0x2000)).is_ok());
    assert!(ms.translate(VirtAddr(0x3fff)).is_ok());
    assert!(ms.translate(VirtAddr(0x4000)).is_err());
}

#[test]
fn insert_over_mapped_page_fails() {
    let mut ms = MemorySet::new_bare(VirtAddr(0x10_0000));
    assert_eq!(ms.insert_framed_area(VirtAddr(0x2000), VirtAddr(0x4000), rw_user()), Ok(()));
    assert_eq!(
        ms.insert_framed_area(VirtAddr(0x3000), VirtAddr(0x5000), rw_user()),
        Err(MmError::AlreadyMapped)
    );
    assert_eq!(
        ms.insert_framed_area(VirtAddr(0x1000), VirtAddr(0x2001), rw_user()),
        Err(MmError::AlreadyMapped)
    );
    assert_eq!(ms.translate(VirtAddr(0x4000)), Err(MmError::Unmapped));
    assert_eq!(ms.translate(VirtAddr(0x1000)), Err(MmError::Unmapped));
    assert_eq!(ms.insert_framed_area(VirtAddr(0x4000), VirtAddr(0x5000), rw_user()), Ok(()));
}

#[test]
fn insert_with_reversed_bounds_fails() {
    let mut ms = MemorySet::new_bare(VirtAddr(0x10_0000));
    assert_eq!(
        ms.insert_framed_area(VirtAddr(0x5000), VirtAddr(0x2000), rw_user()),
        Err(MmError::OutOfRange)
    );
    assert_eq!(ms.translate(VirtAddr(0x2000)), Err(MmError::Unmapped));
}

#[test]
fn drop_needs_exact_bounds() {
    let mut ms = MemorySet::new_bare(VirtAddr(0x10_0000));
    assert_eq!(ms.insert_framed_area(VirtAddr(0x2000), VirtAddr(0x5000), rw_user()), Ok(()));
    assert_eq!(ms.drop_framed_area(VirtAddr(0x2000), VirtAddr(0x4000)), Err(MmError::NotFullyMapped));
    assert_eq!(ms.drop_framed_area(VirtAddr(0x3000), VirtAddr(0x5000)), Err(MmError::NotFullyMapped));
    assert_eq!(ms.drop_framed_area(VirtAddr(0x1000), VirtAddr(0x6000)), Err(MmError::NotFullyMapped));
    assert!(ms.translate(VirtAddr(0x2000)).is_ok());
    assert!(ms.translate(VirtAddr(0x4fff)).is_ok());
    assert_eq!(ms.drop_framed_area(VirtAddr(0x2000), VirtAddr(0x5000)), Ok(()));
    assert_eq!(ms.translate(VirtAddr(0x2000)), Err(MmError::Unmapped));
    assert_eq!(ms.translate(VirtAddr(0x4fff)), Err(MmError::Unmapped));
    assert_eq!(ms.drop_framed_area(VirtAddr(0x2000), VirtAddr(0x5000)), Err(MmError::NotFullyMapped));
}

#[test]
fn drop_never_takes_the_heap() {
    let mut ms = MemorySet::new_bare(VirtAddr(0x10_0000));
    assert_eq!(ms.change_program_brk(4096), Ok(0x10_1000));
    assert_eq!(
        ms.drop_framed_area(VirtAddr(0x10_0000), VirtAddr(0x10_1000)),
        Err(MmError::NotFullyMapped)
    );
    assert!(ms.translate(VirtAddr(0x10_0000)).is_ok());
}

#[test]
fn fresh_frames_are_zero() {
    let mut ms = MemorySet::new_bare(VirtAddr(0x10_0000));
    assert_eq!(ms.insert_framed_area(VirtAddr(0x2000), VirtAddr(0x3000), rw_user()), Ok(()));
    assert_eq!(ms.read_byte(0x2000), Some(0));
    assert_eq!(ms.read_byte(0x2fff), Some(0));
    assert_eq!(ms.read_byte(0x3000), None);
}

#[test]
fn write_spans_pages_of_two_areas() {
    let mut ms = MemorySet::new_bare(VirtAddr(0x10_0000));
    assert_eq!(ms.insert_framed_area(VirtAddr(0x3000), VirtAddr(0x4000), rw_user()), Ok(()));
    assert_eq!(ms.insert_framed_area(VirtAddr(0x2000), VirtAddr(0x3000), rw_user()), Ok(()));
    let data: Vec<u8> = vec![1, 2, 3, 4, 5, 6];
    assert_eq!(ms.write_bytes(0x2ffd, &data), Ok(()));
    assert_eq!(ms.read_byte(0x2ffc), Some(0));
    assert_eq!(ms.read_byte(0x2ffd), Some(1));
    assert_eq!(ms.read_byte(0x2ffe), Some(2));
    assert_eq!(ms.read_byte(0x2fff), Some(3));
    assert_eq!(ms.read_byte(0x3000), Some(4));
    assert_eq!(ms.read_byte(0x3001), Some(5));
    assert_eq!(ms.read_byte(0x3002), Some(6));
    assert_eq!(ms.read_byte(0x3003), Some(0));
    assert_eq!(ms.translate(VirtAddr(0x2fff)), Ok(PhysAddr { area: 2, page: 0, offset: 0xfff }));
    assert_eq!(ms.translate(VirtAddr(0x3000)), Ok(PhysAddr { area: 1, page: 0, offset: 0 }));
}

#[test]
fn write_into_unmapped_page_stores_nothing() {
    let mut ms = MemorySet::new_bare(VirtAddr(0x10_0000));
    assert_eq!(ms.insert_framed_area(VirtAddr(0x2000), VirtAddr(0x3000), rw_user()), Ok(()));
    let data: Vec<u8> = vec![9, 9, 9, 9];
    assert_eq!(ms.write_bytes(0x2ffe, &data), Err(MmError::Unmapped));
    assert_eq!(ms.read_byte(0x2ffe), Some(0));
    assert_eq!(ms.read_byte(0x2fff), Some(0));
    assert_eq!(ms.write_bytes(usize::MAX - 1, &data), Err(MmError::Unmapped));
}

#[test]
fn write_needs_write_and_user_permission() {
    let mut ms = MemorySet::new_bare(VirtAddr(0x10_0000));
    let read_only = MapPermission { r: true, w: false, x: false, u: true };
    let kernel_only = MapPermission { r: true, w: true, x: false, u: false };
    assert_eq!(ms.insert_framed_area(VirtAddr(0x2000), VirtAddr(0x3000), read_only), Ok(()));
    assert_eq!(ms.insert_framed_area(VirtAddr(0x3000), VirtAddr(0x4000), kernel_only), Ok(()));
    let data: Vec<u8> = vec![7];
    assert_eq!(ms.write_bytes(0x2000, &data), Err(MmError::Unmapped));
    assert_eq!(ms.write_bytes(0x3000, &data), Err(MmError::Unmapped));
    assert!(!ms.is_range_user_writable(0x2000, 1));
    assert!(ms.is_range_user_writable(0x2000, 0));
    assert_eq!(ms.read_byte(0x2000), Some(0));
    assert_eq!(ms.read_byte(0x3000), None);
}

#[test]
fn read_str_stops_at_zero_byte() {
    let mut ms = MemorySet::new_bare(VirtAddr(0x10_0000));
    assert_eq!(ms.insert_framed_area(VirtAddr(0x2000), VirtAddr(0x4000), rw_user()), Ok(()));
    let data: Vec<u8> = vec![b'i', b'n', b'i', b't', 0, b'x'];
    assert_eq!(ms.write_bytes(0x2ffe, &data), Ok(()));
    assert_eq!(ms.read_str(0x2ffe), Some(vec![b'i', b'n', b'i', b't']));
    assert_eq!(ms.read_str(0x3002), Some(vec![]));
    assert_eq!(ms.read_str(0x3003), Some(vec![b'x']));
}

#[test]
fn read_str_without_end_fails() {
    let mut ms = MemorySet::new_bare(VirtAddr(0x10_0000));
    assert_eq!(ms.insert_framed_area(VirtAddr(0x2000), VirtAddr(0x3000), rw_user()), Ok(()));
    let data: Vec<u8> = vec![b'a', b'b'];
    assert_eq!(ms.write_bytes(0x2ffe, &data), Ok(()));
    assert_eq!(ms.read_str(0x2ffe), None);
    assert_eq!(ms.read_str(0x5000), None);
}

#[test]
fn brk_grows_and_shrinks() {
    let mut ms = MemorySet::new_bare(VirtAddr(0x10_0000));
    assert_eq!(ms.change_program_brk(0), Ok(0x10_0000));
    assert_eq!(ms.change_program_brk(100), Ok(0x10_0064));
    assert_eq!(ms.read_byte(0x10_0000), Some(0));
    assert_eq!(ms.read_byte(0x10_0fff), Some(0));
    assert_eq!(ms.read_byte(0x10_1000), None);
    let data: Vec<u8> = vec![5];
    assert_eq!(ms.write_bytes(0x10_0010, &data), Ok(()));
    assert_eq!(ms.change_program_brk(4096), Ok(0x10_1064));
    assert_eq!(ms.read_byte(0x10_1fff), Some(0));
    assert_eq!(ms.read_byte(0x10_0010), Some(5));
    assert_eq!(ms.change_program_brk(-4096), Ok(0x10_0064));
    assert_eq!(ms.read_byte(0x10_1000), None);
    assert_eq!(ms.read_byte(0x10_0010), Some(5));
    assert_eq!(ms.change_program_brk(-100), Ok(0x10_0000));
    assert_eq!(ms.read_byte(0x10_0000), None);
    assert_eq!(ms.change_program_brk(100), Ok(0x10_0064));
    assert_eq!(ms.read_byte(0x10_0010), Some(0));
}

#[test]
fn brk_below_heap_bottom_fails() {
    let mut ms = MemorySet::new_bare(VirtAddr(0x10_0000));
    assert_eq!(ms.change_program_brk(-1), Err(MmError::OutOfRange));
    assert_eq!(ms.change_program_brk(10), Ok(0x10_000a));
    assert_eq!(ms.change_program_brk(-11), Err(MmError::OutOfRange));
    assert_eq!(ms.program_brk(), 0x10_000a);
    assert_eq!(ms.change_program_brk(i32::MIN), Err(MmError::OutOfRange));
}

#[test]
fn brk_over_mapped_page_fails() {
    let mut ms = MemorySet::new_bare(VirtAddr(0x10_0000));
    assert_eq!(ms.insert_framed_area(VirtAddr(0x10_1000), VirtAddr(0x10_2000), rw_user()), Ok(()));
    assert_eq!(ms.change_program_brk(4096), Ok(0x10_1000));
    assert_eq!(ms.change_program_brk(1), Err(MmError::AlreadyMapped));
    assert_eq!(ms.program_brk(), 0x10_1000);
}

#[test]
fn brk_beyond_last_address_fails() {
    let top = usize::MAX - 4095;
    let mut ms = MemorySet::new_bare(VirtAddr(top));
    assert_eq!(ms.change_program_brk(4095), Ok(usize::MAX));
    assert_eq!(ms.change_program_brk(1), Err(MmError::OutOfRange));
}

#[test]
fn duplicate_copies_frames() {
    let mut ms = MemorySet::new_bare(VirtAddr(0x10_0000));
    assert_eq!(ms.insert_framed_area(VirtAddr(0x2000), VirtAddr(0x3000), rw_user()), Ok(()));
    let data: Vec<u8> = vec![1, 2, 3];
    assert_eq!(ms.write_bytes(0x2000, &data), Ok(()));
    let mut copy = ms.duplicate();
    assert_eq!(copy.read_byte(0x2001), Some(2));
    let other: Vec<u8> = vec![8];
    assert_eq!(copy.write_bytes(0x2001, &other), Ok(()));
    assert_eq!(copy.read_byte(0x2001), Some(8));
    assert_eq!(ms.read_byte(0x2001), Some(2));
    assert_eq!(copy.heap_bottom(), 0x10_0000);
}

#[test]
fn recycle_gives_up_every_frame() {
    let mut ms = MemorySet::new_bare(VirtAddr(0x10_0000));
    assert_eq!(ms.insert_framed_area(VirtAddr(0x2000), VirtAddr(0x3000), rw_user()), Ok(()));
    assert_eq!(ms.change_program_brk(4096), Ok(0x10_1000));
    ms.recycle_data_pages();
    assert_eq!(ms.translate(VirtAddr(0x2000)), Err(MmError::Unmapped));
    assert_eq!(ms.translate(VirtAddr(0x10_0000)), Err(MmError::Unmapped));
    assert_eq!(ms.program_brk(), 0x10_0000);
    assert!(ms.is_range_free(0, usize::MAX / PAGE_SIZE + 1));
}

#[test]
fn insert_without_access_fails() {
    let mut ms = MemorySet::new_bare(VirtAddr(0x10_0000));
    let user_only = MapPermission { r: false, w: false, x: false, u: true };
    assert_eq!(
        ms.insert_framed_area(VirtAddr(0x2000), VirtAddr(0x3000), MapPermission::empty()),
        Err(MmError::NoAccess)
    );
    assert_eq!(
        ms.insert_framed_area(VirtAddr(0x2000), VirtAddr(0x3000), user_only),
        Err(MmError::NoAccess)
    );
    assert_eq!(
        ms.insert_framed_area(VirtAddr(0x3000), VirtAddr(0x2000), MapPermission::empty()),
        Err(MmError::NoAccess)
    );
    assert_eq!(ms.translate(VirtAddr(0x2000)), Err(MmError::Unmapped));
    assert!(!MapPermission::empty().some_access());
    assert!(MapPermission::from_port(4).some_access());
    assert!(!MapPermission::from_port(8).some_access());
}
