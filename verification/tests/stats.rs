use fs3::{
    allocation_granularity, available_space, free_space, statvfs, total_space, Error, VolumeCounts,
};
use std::path::Path;

/// Asks the volume that holds `path` for its counts.
fn counts_of(path: &Path) -> VolumeCounts {
    let raw = rustix::fs::statvfs(path).unwrap();
    VolumeCounts {
        unit_size: raw.f_frsize,
        total_units: raw.f_blocks,
        free_units: raw.f_bfree,
        available_units: raw.f_bavail,
    }
}

/// Checks filesystem space methods.
#[test]
fn filesystem_space() {
    let tempdir = tempdir::TempDir::new("fs3").unwrap();
    let counts = counts_of(tempdir.path());
    let total_space = total_space(counts).unwrap();
    let free_space = free_space(counts).unwrap();
    let available_space = available_space(counts).unwrap();

    assert!(total_space >= free_space);
    assert!(total_space >= available_space);
    assert!(available_space <= free_space);
}

#[test]
fn filesystem_snapshot_agrees_with_the_queries() {
    let tempdir = tempdir::TempDir::new("fs3").unwrap();
    let counts = counts_of(tempdir.path());
    let stats = statvfs(counts).unwrap();

    assert_eq!(Ok(stats.total_space()), total_space(counts));
    assert_eq!(Ok(stats.free_space()), free_space(counts));
    assert_eq!(Ok(stats.available_space()), available_space(counts));
    assert_eq!(Ok(stats.allocation_granularity()), allocation_granularity(counts));
    assert_eq!(counts.unit_size, stats.allocation_granularity());
}

#[test]
fn snapshot_multiplies_counts_by_the_unit() {
    let counts = VolumeCounts {
        unit_size: 4096,
        total_units: 100,
        free_units: 40,
        available_units: 30,
    };
    let stats = statvfs(counts).unwrap();

    assert_eq!(409_600, stats.total_space());
    assert_eq!(163_840, stats.free_space());
    assert_eq!(122_880, stats.available_space());
    assert_eq!(4096, stats.allocation_granularity());

    assert_eq!(Ok(409_600), total_space(counts));
    assert_eq!(Ok(163_840), free_space(counts));
    assert_eq!(Ok(122_880), available_space(counts));
    assert_eq!(Ok(4096), allocation_granularity(counts));
}

#[test]
fn snapshot_is_a_value() {
    let counts = VolumeCounts {
        unit_size: 512,
        total_units: 8,
        free_units: 8,
        available_units: 8,
    };
    let first = statvfs(counts).unwrap();
    let second = statvfs(counts).unwrap();
    let copy = first.clone();

    assert_eq!(first, second);
    assert_eq!(first, copy);
    assert_ne!(
        first,
        statvfs(VolumeCounts {
            free_units: 7,
            available_units: 7,
            ..counts
        })
        .unwrap()
    );
}

#[test]
fn snapshot_of_an_empty_volume() {
    let counts = VolumeCounts {
        unit_size: 4096,
        total_units: 0,
        free_units: 0,
        available_units: 0,
    };
    let stats = statvfs(counts).unwrap();

    assert_eq!(0, stats.total_space());
    assert_eq!(0, stats.free_space());
    assert_eq!(0, stats.available_space());
    assert_eq!(4096, stats.allocation_granularity());
}

#[test]
fn snapshot_at_the_edge_of_64_bits() {
    let fits = VolumeCounts {
        unit_size: 1 << 32,
        total_units: (1 << 32) - 1,
        free_units: 1,
        available_units: 0,
    };
    assert_eq!(Ok(((1u64 << 32) - 1) << 32), total_space(fits));
    assert_eq!(Ok(1u64 << 32), free_space(fits));
    assert_eq!(Ok(0), available_space(fits));

    let too_large = VolumeCounts {
        total_units: 1 << 32,
        ..fits
    };
    assert_eq!(Err(Error::BadStats), statvfs(too_large));
    assert_eq!(Err(Error::BadStats), total_space(too_large));
    assert_eq!(Err(Error::BadStats), free_space(too_large));
    assert_eq!(Err(Error::BadStats), available_space(too_large));
    assert_eq!(Err(Error::BadStats), allocation_granularity(too_large));
}

#[test]
fn counts_that_cannot_hold_together_are_refused() {
    let more_free_than_there_is = VolumeCounts {
        unit_size: 4096,
        total_units: 10,
        free_units: 11,
        available_units: 5,
    };
    assert_eq!(Err(Error::BadStats), statvfs(more_free_than_there_is));
    assert_eq!(Err(Error::BadStats), total_space(more_free_than_there_is));

    let more_available_than_free = VolumeCounts {
        unit_size: 4096,
        total_units: 10,
        free_units: 5,
        available_units: 6,
    };
    assert_eq!(Err(Error::BadStats), statvfs(more_available_than_free));
    assert_eq!(Err(Error::BadStats), free_space(more_available_than_free));
    assert_eq!(
        Err(Error::BadStats),
        available_space(more_available_than_free)
    );
}

#[test]
fn clusters_are_sectors_times_bytes() {
    let counts = VolumeCounts::from_clusters(8, 512, 1000, 5000);

    assert_eq!(
        VolumeCounts {
            unit_size: 4096,
            total_units: 5000,
            free_units: 1000,
            available_units: 1000,
        },
        counts
    );
    assert_eq!(Ok(20_480_000), total_space(counts));
    assert_eq!(Ok(4_096_000), free_space(counts));
    assert_eq!(Ok(4_096_000), available_space(counts));
    assert_eq!(Ok(4096), allocation_granularity(counts));

    let largest = VolumeCounts::from_clusters(u32::MAX, u32::MAX, 0, 0);
    assert_eq!(18_446_744_065_119_617_025, largest.unit_size);
}
