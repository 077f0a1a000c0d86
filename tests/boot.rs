use mykernel_mm::board::{BoardInfo, WalkStep};
use mykernel_mm::exfat::{AllocationBitmap, ExFatFAT, EXFAT_EOF};
use mykernel_mm::storage::StorageError;
use mykernel_mm::syscall::{TaskControlBlock, TaskStatus, SYSCALL};

#[test]
fn fat_follows_chain() {
    let data: Vec<u8> = vec![0, 0, 0, 0, 2, 0, 0, 0, 0x04, 0x03, 0x02, 0x01, 0xff, 0xff, 0xff, 0xff];
    let fat = ExFatFAT { fat_data: &data };
    assert_eq!(fat.next_cluster(1), Some(2));
    assert_eq!(fat.next_cluster(2), Some(0x0102_0304));
    assert_eq!(fat.next_cluster(3), None);
    assert_eq!(EXFAT_EOF, 0xffff_ffff);
}

#[test]
fn bitmap_marks_and_frees() {
    let mut data = vec![0u8; 4];
    let mut bitmap = AllocationBitmap { bitmap_data: &mut data };
    assert!(!bitmap.is_allocated(9));
    bitmap.allocate_cluster(9);
    bitmap.allocate_cluster(31);
    assert!(bitmap.is_allocated(9));
    assert!(!bitmap.is_allocated(8));
    assert!(!bitmap.is_allocated(10));
    bitmap.free_cluster(9);
    assert!(!bitmap.is_allocated(9));
    assert!(bitmap.is_allocated(31));
    assert_eq!(data, vec![0, 0, 0, 0x80]);
}

#[test]
fn syscall_numbers() {
    assert_eq!(SYSCALL::try_from(64), SYSCALL::Write);
    assert_eq!(SYSCALL::try_from(93), SYSCALL::Exit);
    assert_eq!(SYSCALL::try_from(124), SYSCALL::Yield);
    assert_eq!(SYSCALL::try_from(169), SYSCALL::GetTime);
    assert_eq!(SYSCALL::GetTime.id(), 169);
}

#[test]
fn task_block_holds_status() {
    let t = TaskControlBlock { task_ctx_ptr: 0x8000, task_status: TaskStatus::Ready };
    assert_eq!(t.task_status, TaskStatus::Ready);
    assert_eq!(t.task_ctx_ptr, 0x8000);
}

#[test]
fn storage_error_variants() {
    let e = StorageError::CommandFailed { command: 0x2a, error_code: 7 };
    assert_ne!(e, StorageError::Timeout);
    assert_eq!(StorageError::OutOfBounds { block_num: 3 }, StorageError::OutOfBounds { block_num: 3 });
}

#[test]
fn walk_counts_harts_and_enters_lists() {
    let mut info = BoardInfo::new();
    assert_eq!(info.on_subnode(0, b"", b"cpus"), WalkStep::StepInto);
    assert_eq!(info.on_subnode(0, b"", b"soc"), WalkStep::StepInto);
    assert_eq!(info.on_subnode(1, b"cpus", b"cpu@0"), WalkStep::StepOver);
    assert_eq!(info.on_subnode(1, b"cpus", b"cpu@1"), WalkStep::StepOver);
    assert_eq!(info.on_subnode(1, b"cpus", b"cpu-map"), WalkStep::StepOver);
    assert_eq!(info.smp, 2);
    assert_eq!(info.on_subnode(1, b"soc", b"serial@10000000"), WalkStep::StepInto);
    assert_eq!(info.on_subnode(1, b"soc", b"uart@10000000"), WalkStep::StepInto);
    assert_eq!(info.on_subnode(1, b"soc", b"plic@c000000"), WalkStep::StepOver);
    assert_eq!(info.on_subnode(0, b"", b"memory@80000000"), WalkStep::StepInto);
    assert_eq!(info.on_subnode(0, b"", b"chosen"), WalkStep::StepOver);
}

#[test]
fn walk_reads_regions() {
    let mut info = BoardInfo::new();
    assert_eq!(info.on_reg(b"serial@10000000", &[(0x1000_0000, 0x1000_0100)]), WalkStep::StepOut);
    assert_eq!(info.uart, 0x1000_0000);
    let regions: Vec<(usize, usize)> = (0..10).map(|i| (0x8000_0000 + i * 0x1000, 0x8000_1000 + i * 0x1000)).collect();
    assert_eq!(info.on_reg(b"memory@80000000", &regions), WalkStep::StepOut);
    assert_eq!(info.memory.len(), 8);
    assert_eq!(info.memory[0], (0x8000_0000, 0x8000_1000));
    assert_eq!(info.memory[7], (0x8000_7000, 0x8000_8000));
    assert_eq!(info.uart, 0x1000_0000);
}

#[test]
fn walk_reads_timebase_frequency() {
    let mut info = BoardInfo::new();
    assert_eq!(
        info.on_property(b"cpus", b"timebase-frequency", &[0x00, 0x98, 0x96, 0x80]),
        Some(WalkStep::StepOver)
    );
    assert_eq!(info.frequency, 10_000_000);
    assert_eq!(
        info.on_property(b"cpus", b"timebase-frequency", &[0, 0, 0, 1, 0, 0, 0, 2]),
        Some(WalkStep::StepOver)
    );
    assert_eq!(info.frequency, 0x1_0000_0002);
    assert_eq!(info.on_property(b"cpus", b"timebase-frequency", &[1, 2, 3]), None);
    assert_eq!(info.on_property(b"soc", b"timebase-frequency", &[1, 2, 3]), Some(WalkStep::StepOver));
    assert_eq!(info.frequency, 0x1_0000_0002);
}
