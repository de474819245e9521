use dcp::{
    align_up, buffer_layout, buffer_len, calc_sizes, check_path, checked_calc_sizes, check_size_or_errno, check_size_or_error, initial_indices, log,
    mapping_len, open_plan, size_or_errno, percent, show_progress, with_nocow, DcpError, Mode, OpenPlan, RingCopy,
    Stage, StreamCopy, StreamStep, SyscallCopy, Transfer, COPY_SIZE, FS_NOCOW_FL,
};

#[test]
fn size_result_positive_is_count() {
    assert_eq!(check_size_or_error(4096), Ok(4096));
    assert_eq!(check_size_or_error(0), Ok(0));
    assert_eq!(check_size_or_error(i32::MAX), Ok(i32::MAX as u32));
}

#[test]
fn size_result_negative_is_os_error() {
    assert_eq!(check_size_or_error(-2), Err(DcpError::Io(2)));
    assert_eq!(check_size_or_error(-(libc::EIO)), Err(DcpError::Io(libc::EIO)));
}

#[test]
fn errno_result_positive_is_count() {
    assert_eq!(check_size_or_errno(0), Ok(0));
    assert_eq!(check_size_or_errno(123456), Ok(123456));
}

#[test]
fn errno_result_negative_reads_errno() {
    nix::errno::Errno::EBADF.set();
    assert_eq!(check_size_or_errno(-1), Err(DcpError::Io(libc::EBADF)));
    nix::errno::Errno::ENOSPC.set();
    assert_eq!(check_size_or_errno(-1), Err(DcpError::Io(libc::ENOSPC)));
}

#[test]
fn align_up_rounds_to_power_of_two() {
    assert_eq!(align_up(4097, 4096), 8192);
    assert_eq!(align_up(8192, 4096), 8192);
    assert_eq!(align_up(0, 512), 0);
    assert_eq!(align_up(1, 1), 1);
    assert_eq!(align_up(0x1000_0001, 64), 0x1000_0040);
}

#[test]
fn align_up_non_power_of_two_uses_mask_formula() {
    // (5 + 2) & !2 == 5: the mask trick is only an alignment for powers of two.
    assert_eq!(align_up(5, 3), 5);
}

#[test]
fn aligned_buffer_fits_mapping() {
    let base: usize = 0x7f00_0000_0123;
    let size: u32 = 65536;
    let align: u32 = 4096;
    let total = mapping_len(size, align);
    assert_eq!(total, 65536 + 4096);
    let start = align_up(base, align as usize);
    assert_eq!(start % 4096, 0);
    assert!(start >= base);
    assert!(start + size as usize <= base + total);
}

#[test]
fn layout_accepts_power_of_two_alignment() {
    let layout = buffer_layout(1 << 20, 4096).unwrap();
    assert_eq!(layout.size(), 1 << 20);
    assert_eq!(layout.align(), 4096);
}

#[test]
fn layout_rejects_bad_alignment_or_size() {
    assert_eq!(buffer_layout(4096, 3).err(), Some(DcpError::Layout));
    assert_eq!(buffer_layout(4096, 0).err(), Some(DcpError::Layout));
    assert_eq!(buffer_layout(isize::MAX as usize, 4096).err(), Some(DcpError::Layout));
    assert!(buffer_layout(isize::MAX as usize - 4095, 4096).is_ok());
}

#[test]
fn open_plan_for_source() {
    assert_eq!(
        open_plan(Mode::Read, 0, libc::POSIX_FADV_SEQUENTIAL),
        OpenPlan {
            read: true,
            write: false,
            create: false,
            truncate: false,
            custom_flags: None,
            advise: Some(libc::POSIX_FADV_SEQUENTIAL),
        }
    );
}

#[test]
fn open_plan_for_destination() {
    assert_eq!(
        open_plan(Mode::Write, libc::O_DIRECT, 0),
        OpenPlan {
            read: false,
            write: true,
            create: true,
            truncate: true,
            custom_flags: Some(libc::O_DIRECT),
            advise: None,
        }
    );
}

#[test]
fn block_size_is_lcm_of_block_sizes() {
    assert_eq!(calc_sizes(100, 4096, 512), (100, 4096));
    assert_eq!(calc_sizes(7, 6, 4), (7, 12));
    assert_eq!(calc_sizes(0, 4096, 4096), (0, 4096));
    assert_eq!(calc_sizes(9, 0, 4096), (9, 0));
    assert_eq!(calc_sizes(9, 65536, 65536), (9, 65536));
}

#[test]
fn percent_rounds_down() {
    assert_eq!(percent(1, 3), 33);
    assert_eq!(percent(3, 3), 100);
    assert_eq!(percent(5, 4), 125);
    assert_eq!(percent(0, 10), 0);
}

#[test]
fn progress_only_moves_forward() {
    let mut prev = 0;
    assert!(show_progress(&mut prev, 10));
    assert_eq!(prev, 10);
    assert!(!show_progress(&mut prev, 10));
    assert!(!show_progress(&mut prev, 5));
    assert_eq!(prev, 10);
    assert!(show_progress(&mut prev, 11));
    assert_eq!(prev, 11);
}

#[test]
fn log_reports_only_errors() {
    let ok: Result<u64, DcpError> = Ok(3);
    assert_eq!(log(ok), None);
    let err: Result<u64, DcpError> = Err(DcpError::Push);
    assert_eq!(log(err), Some(DcpError::Push));
}

#[test]
fn initial_indices_fill_or_empty() {
    let full: Vec<usize> = initial_indices(4, true).into_iter().collect();
    assert_eq!(full, vec![0, 1, 2, 3]);
    assert!(initial_indices(4, false).is_empty());
    assert!(initial_indices(0, true).is_empty());
}

#[test]
fn ring_copy_in_order_writes_where_it_read() {
    // 10000 bytes through two 4096-byte buffers.
    let mut c = RingCopy::new(10000, 4096, 2);
    assert!(c.in_progress());
    assert_eq!(c.next_read(), Some(Transfer { index: 0, offset: 0, len: 4096 }));
    assert_eq!(c.next_read(), Some(Transfer { index: 1, offset: 4096, len: 4096 }));
    assert_eq!(c.next_read(), None);
    assert_eq!(c.next_write(), None);
    assert!(c.is_reading(0) && c.is_reading(1));
    assert_eq!(c.read_completed(0, 4096), Ok(4096));
    assert_eq!(c.read_completed(1, 4096), Ok(4096));
    assert_eq!(c.next_write(), Some(Transfer { index: 0, offset: 0, len: 4096 }));
    assert_eq!(c.next_write(), Some(Transfer { index: 1, offset: 4096, len: 4096 }));
    assert!(c.is_writing(0));
    assert_eq!(c.write_completed(0, 4096), Ok(Some(40)));
    // Buffer 0 is free again and is read into from the next offset.
    assert_eq!(c.next_read(), Some(Transfer { index: 0, offset: 8192, len: 4096 }));
    assert_eq!(c.write_completed(1, 4096), Ok(Some(81)));
    assert_eq!(c.read_completed(0, 1808), Ok(1808));
    assert_eq!(c.next_read(), None);
    assert_eq!(c.next_write(), Some(Transfer { index: 0, offset: 8192, len: 4096 }));
    assert!(c.in_progress());
    assert_eq!(c.write_completed(0, 4096), Ok(Some(122)));
    assert!(!c.in_progress());
    assert_eq!(c.written(), 12288);
    assert_eq!(c.file_size(), 10000);
}

#[test]
fn ring_copy_out_of_order_completion_misplaces_block() {
    // When the second read completes first, its buffer is written at the
    // first write offset: the placement holds only for in-order completion.
    let mut c = RingCopy::new(8192, 4096, 2);
    assert_eq!(c.next_read(), Some(Transfer { index: 0, offset: 0, len: 4096 }));
    assert_eq!(c.next_read(), Some(Transfer { index: 1, offset: 4096, len: 4096 }));
    assert_eq!(c.read_completed(1, 4096), Ok(4096));
    assert_eq!(c.next_write(), Some(Transfer { index: 1, offset: 0, len: 4096 }));
}

#[test]
fn ring_copy_completion_error_changes_nothing() {
    let mut c = RingCopy::new(100, 4096, 1);
    assert_eq!(c.next_read(), Some(Transfer { index: 0, offset: 0, len: 4096 }));
    assert_eq!(c.read_completed(0, -(libc::EIO)), Err(DcpError::Io(libc::EIO)));
    assert!(c.is_reading(0));
    assert_eq!(c.read_completed(0, 100), Ok(100));
    assert_eq!(c.next_write(), Some(Transfer { index: 0, offset: 0, len: 4096 }));
    assert_eq!(c.write_completed(0, -(libc::ENOSPC)), Err(DcpError::Io(libc::ENOSPC)));
    assert!(c.is_writing(0));
    assert_eq!(c.write_completed(0, 4096), Ok(Some(4096)));
    assert!(!c.in_progress());
}

#[test]
fn ring_copy_empty_file_does_nothing() {
    let mut c = RingCopy::new(0, 4096, 4);
    assert!(!c.in_progress());
    assert_eq!(c.next_read(), None);
    assert_eq!(c.next_write(), None);
    assert!(!c.is_reading(0));
    assert!(!c.is_writing(9));
    assert_eq!(c.written(), 0);
}

#[test]
fn ring_copy_progress_not_repeated() {
    let mut c = RingCopy::new(1_000_000, 1000, 1);
    assert_eq!(c.next_read(), Some(Transfer { index: 0, offset: 0, len: 1000 }));
    assert_eq!(c.read_completed(0, 1000), Ok(1000));
    assert_eq!(c.next_write(), Some(Transfer { index: 0, offset: 0, len: 1000 }));
    // 0.1% rounds down to 0, which is no progress.
    assert_eq!(c.write_completed(0, 1000), Ok(None));
}

#[test]
fn stage_values_are_distinct() {
    assert_ne!(Stage::Free, Stage::Reading);
    assert_ne!(Stage::Filled, Stage::Writing);
}

#[test]
fn stream_copy_counts_and_finishes() {
    let mut s = StreamCopy::new(300);
    assert_eq!(s.after_read(100), StreamStep::Write { len: 100, report: Some(33) });
    assert_eq!(s.after_read(1), StreamStep::Write { len: 1, report: None });
    assert_eq!(s.after_read(199), StreamStep::Write { len: 199, report: Some(100) });
    assert_eq!(s.after_read(0), StreamStep::Finish);
    assert_eq!(s.written(), 300);
}

#[test]
fn stream_copy_empty_source() {
    let mut s = StreamCopy::new(0);
    assert_eq!(s.after_read(0), StreamStep::Finish);
    assert_eq!(s.written(), 0);
}

#[test]
fn syscall_copy_counts_until_done() {
    let mut s = SyscallCopy::new(40 << 20);
    assert_eq!(s.chunk(), COPY_SIZE);
    assert!(s.in_progress());
    assert_eq!(s.after_copy(16 << 20), Ok(Some(40)));
    assert_eq!(s.after_copy(16 << 20), Ok(Some(80)));
    assert!(s.in_progress());
    assert_eq!(s.after_copy(8 << 20), Ok(Some(100)));
    assert!(!s.in_progress());
    assert_eq!(s.written(), 40 << 20);
}

#[test]
fn syscall_copy_error_changes_nothing() {
    let mut s = SyscallCopy::new(1000);
    nix::errno::Errno::EXDEV.set();
    assert_eq!(s.after_copy(-1), Err(DcpError::Io(libc::EXDEV)));
    assert_eq!(s.written(), 0);
    assert!(s.in_progress());
}

#[test]
fn nocow_flag_is_set() {
    assert_eq!(with_nocow(0), FS_NOCOW_FL);
    assert_eq!(with_nocow(0x10), 0x10 | 0x0080_0000);
    assert_eq!(with_nocow(FS_NOCOW_FL), FS_NOCOW_FL);
}

#[test]
fn size_or_errno_uses_given_code() {
    assert_eq!(size_or_errno(7, libc::EIO), Ok(7));
    assert_eq!(size_or_errno(-1, libc::EIO), Err(DcpError::Io(libc::EIO)));
    assert_eq!(size_or_errno(-1, libc::EXDEV), Err(DcpError::Io(libc::EXDEV)));
}

#[test]
fn layout_keeps_size_for_iovec() {
    let layout = buffer_layout(3 * 4096, 512).unwrap();
    assert_eq!(layout.size(), 3 * 4096);
    assert_eq!(layout.align(), 512);
}

#[test]
fn ring_copy_read_due_and_offset() {
    let mut c = RingCopy::new(5000, 4096, 1);
    assert!(c.read_due());
    assert_eq!(c.read_offset(), 0);
    assert_eq!(c.next_read(), Some(Transfer { index: 0, offset: 0, len: 4096 }));
    assert!(!c.read_due());
    assert_eq!(c.read_offset(), 4096);
}

#[test]
fn progress_reports_form_increasing_run() {
    let mut prev = 0;
    let offered = [3u64, 1, 3, 7, 5, 9, 9, 2];
    let reported: Vec<u64> = offered.iter().copied().filter(|&c| show_progress(&mut prev, c)).collect();
    assert_eq!(reported, vec![3, 7, 9]);
    assert_eq!(prev, 9);
}

#[test]
fn stream_count_independent_of_split() {
    let mut a = StreamCopy::new(1000);
    for n in [400usize, 400, 200] {
        a.after_read(n);
    }
    let mut b = StreamCopy::new(1000);
    for n in [100usize; 10] {
        b.after_read(n);
    }
    assert_eq!(a.after_read(0), StreamStep::Finish);
    assert_eq!(b.after_read(0), StreamStep::Finish);
    assert_eq!(a.written(), 1000);
    assert_eq!(b.written(), 1000);
}

#[test]
fn checked_block_size_refuses_overflow() {
    assert_eq!(checked_calc_sizes(5, 4096, 512), Some((5, 4096)));
    assert_eq!(checked_calc_sizes(5, 6, 4), Some((5, 12)));
    assert_eq!(checked_calc_sizes(5, 0, 7), Some((5, 0)));
    assert_eq!(checked_calc_sizes(5, 65536, 65537), None);
    assert_eq!(checked_calc_sizes(5, u32::MAX, u32::MAX - 1), None);
    assert_eq!(checked_calc_sizes(5, u32::MAX, 1), Some((5, u32::MAX)));
}

#[test]
fn path_with_nul_is_refused_at_first_nul() {
    assert_eq!(check_path(b"/tmp/file"), Ok(()));
    assert_eq!(check_path(b""), Ok(()));
    assert_eq!(check_path(b"/tmp/a\0b\0"), Err(DcpError::Nul(6)));
    assert_eq!(check_path(b"\0"), Err(DcpError::Nul(0)));
}

#[test]
fn buffer_len_is_layout_size() {
    let layout = buffer_layout(8192, 4096).unwrap();
    assert_eq!(buffer_len(&layout), 8192);
}
