use fs3::{covering_size, Error, FileSpace};

/// Tests file allocation.
#[test]
fn allocate() {
    let blksize: u64 = 4096;
    let mut file = FileSpace::new(blksize, 1 << 40).unwrap();
    assert_eq!(blksize, file.allocation_granularity());

    // New files are created with no allocated size.
    assert_eq!(0, file.allocated_size());
    assert_eq!(0, file.len());

    // Allocate space for the file, checking that the allocated size steps
    // up by block size, and the file length matches the allocated size.

    file.allocate(2 * blksize - 1).unwrap();
    assert_eq!(2 * blksize, file.allocated_size());
    assert_eq!(2 * blksize - 1, file.len());

    // Truncate the file, checking that the allocated size steps down by
    // block size.

    file.set_len(blksize + 1);
    assert_eq!(2 * blksize, file.allocated_size());
    assert_eq!(blksize + 1, file.len());
}

#[test]
fn covering_size_rounds_up_to_whole_units() {
    assert_eq!(Some(0), covering_size(0, 4096));
    assert_eq!(Some(4096), covering_size(1, 4096));
    assert_eq!(Some(4096), covering_size(4095, 4096));
    assert_eq!(Some(4096), covering_size(4096, 4096));
    assert_eq!(Some(8192), covering_size(4097, 4096));
    assert_eq!(Some(8192), covering_size(8191, 4096));
    assert_eq!(Some(1536), covering_size(1025, 512));
    assert_eq!(Some(7), covering_size(7, 1));
    assert_eq!(Some(u64::MAX), covering_size(u64::MAX, 1));
    assert_eq!(Some(9), covering_size(7, 3));
}

#[test]
fn covering_size_has_no_answer_without_a_unit_or_beyond_64_bits() {
    assert_eq!(None, covering_size(0, 0));
    assert_eq!(None, covering_size(4096, 0));
    assert_eq!(None, covering_size(u64::MAX, 4096));
    assert_eq!(None, covering_size(u64::MAX - 4094, 4096));
    assert_eq!(
        Some(u64::MAX - 4095),
        covering_size(u64::MAX - 4095, 4096)
    );
    assert_eq!(Some(u64::MAX - 4095), covering_size(u64::MAX - 4096, 4096));
}

#[test]
fn a_file_needs_a_granularity() {
    assert_eq!(Err(Error::BadStats), FileSpace::new(0, 1 << 20));
    assert!(FileSpace::new(1, 0).is_ok());
}

#[test]
fn allocate_covers_the_request_in_whole_units() {
    let granularity: u64 = 512;
    let mut len: u64 = 0;
    while len < 3000 {
        let mut file = FileSpace::new(granularity, 1 << 30).unwrap();
        assert_eq!(Ok(()), file.allocate(len));
        assert!(file.allocated_size() >= len);
        assert!(file.allocated_size() < len + granularity);
        assert_eq!(0, file.allocated_size() % granularity);
        assert_eq!(len.div_ceil(granularity) * granularity, file.allocated_size());
        assert_eq!(len, file.len());
        len += 37;
    }
}

#[test]
fn allocate_within_the_reservation_changes_nothing_reserved() {
    let mut file = FileSpace::new(4096, 1 << 30).unwrap();
    file.allocate(10_000).unwrap();
    assert_eq!(12_288, file.allocated_size());
    assert_eq!(10_000, file.len());

    assert_eq!(Ok(()), file.allocate(10_000));
    assert_eq!(12_288, file.allocated_size());
    assert_eq!(10_000, file.len());

    assert_eq!(Ok(()), file.allocate(12_288));
    assert_eq!(12_288, file.allocated_size());
    assert_eq!(12_288, file.len());

    assert_eq!(Ok(()), file.allocate(1));
    assert_eq!(12_288, file.allocated_size());
    assert_eq!(12_288, file.len());

    assert_eq!(Ok(()), file.allocate(0));
    assert_eq!(12_288, file.allocated_size());
    assert_eq!(12_288, file.len());
}

#[test]
fn allocate_never_shrinks() {
    let mut file = FileSpace::new(4096, 1 << 30).unwrap();
    file.allocate(3 * 4096).unwrap();
    file.allocate(1).unwrap();
    assert_eq!(3 * 4096, file.allocated_size());
    file.allocate(3 * 4096 + 1).unwrap();
    assert_eq!(4 * 4096, file.allocated_size());
    assert_eq!(3 * 4096 + 1, file.len());
}

#[test]
fn allocate_fails_whole_when_the_volume_is_full() {
    let mut file = FileSpace::new(4096, 8192).unwrap();
    assert_eq!(Ok(()), file.allocate(5000));
    assert_eq!(8192, file.allocated_size());

    assert_eq!(Err(Error::NoSpace), file.allocate(8193));
    assert_eq!(8192, file.allocated_size());
    assert_eq!(5000, file.len());

    assert_eq!(Err(Error::NoSpace), file.allocate(u64::MAX));
    assert_eq!(8192, file.allocated_size());
    assert_eq!(5000, file.len());

    assert_eq!(Ok(()), file.allocate(8192));
    assert_eq!(8192, file.allocated_size());
    assert_eq!(8192, file.len());

    let mut none = FileSpace::new(4096, 4095).unwrap();
    assert_eq!(Err(Error::NoSpace), none.allocate(1));
    assert_eq!(0, none.allocated_size());
    assert_eq!(0, none.len());
    assert_eq!(Ok(()), none.allocate(0));
}

#[test]
fn truncating_steps_the_reservation_down() {
    let mut file = FileSpace::new(4096, 1 << 30).unwrap();
    file.allocate(10 * 4096).unwrap();

    file.set_len(4096 * 3 + 1);
    assert_eq!(4 * 4096, file.allocated_size());
    assert_eq!(4096 * 3 + 1, file.len());

    file.set_len(4096);
    assert_eq!(4096, file.allocated_size());
    assert_eq!(4096, file.len());

    file.set_len(0);
    assert_eq!(0, file.allocated_size());
    assert_eq!(0, file.len());
}

#[test]
fn lengthening_reserves_nothing() {
    let mut file = FileSpace::new(4096, 1 << 30).unwrap();
    file.allocate(4096).unwrap();

    file.set_len(1 << 20);
    assert_eq!(4096, file.allocated_size());
    assert_eq!(1 << 20, file.len());

    file.set_len(u64::MAX);
    assert_eq!(4096, file.allocated_size());
    assert_eq!(u64::MAX, file.len());
}
