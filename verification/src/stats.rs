//! What a volume says of its room: free, available and total bytes, and the
//! granularity in which it hands out space.
//!
//! A platform reports sizes as counts of allocation units. [`statvfs`] turns
//! one such report into an [`FsStats`]; the four queries beside it are read
//! off that one snapshot, so that their answers always belong together.

use vstd::prelude::*;
use crate::error::Error;

verus! {

/// A volume's report of itself: the size of its allocation unit in bytes and
/// three counts of such units.
#[derive(Clone, Copy, Debug, PartialEq, Eq, Hash, Structural)]
pub struct VolumeCounts {
    /// Bytes in one allocation unit: a block, or a cluster.
    pub unit_size: u64,
    /// Units on the volume.
    pub total_units: u64,
    /// Units that hold no data.
    pub free_units: u64,
    /// Free units that the caller may use.
    pub available_units: u64,
}

/// The sizes of a volume in bytes, as mathematical integers.
pub struct Space {
    pub free_space: nat,
    pub available_space: nat,
    pub total_space: nat,
    pub allocation_granularity: nat,
}

impl Space {
    /// No more is available than is free, and no more is free than there is.
    pub open spec fn ordered(self) -> bool {
        self.available_space <= self.free_space <= self.total_space
    }
}

impl VolumeCounts {
    /// The counts can be true of one volume at one moment, and its total
    /// size in bytes fits the machine's 64 bits.
    pub open spec fn consistent(self) -> bool {
        &&& self.available_units <= self.free_units <= self.total_units
        &&& self.unit_size * self.total_units <= u64::MAX
    }

    /// The sizes in bytes that the counts stand for.
    pub open spec fn space(self) -> Space {
        Space {
            free_space: (self.unit_size * self.free_units) as nat,
            available_space: (self.unit_size * self.available_units) as nat,
            total_space: (self.unit_size * self.total_units) as nat,
            allocation_granularity: self.unit_size as nat,
        }
    }

    /// What a query for the volume's statistics answers to these counts.
    pub open spec fn snapshot(self) -> Result<Space, Error> {
        if self.consistent() {
            Ok(self.space())
        } else {
            Err(Error::BadStats)
        }
    }

    /// Counts as a platform with sectors and clusters reports them. A cluster
    /// of `sectors_per_cluster` sectors is the allocation unit, and every free
    /// cluster is available to the caller.
    pub fn from_clusters(
        sectors_per_cluster: u32,
        bytes_per_sector: u32,
        free_clusters: u32,
        total_clusters: u32,
    ) -> (counts: VolumeCounts)
        ensures
            counts.unit_size == sectors_per_cluster * bytes_per_sector,
            counts.total_units == total_clusters,
            counts.free_units == free_clusters,
            counts.available_units == free_clusters,
    {
        assert(sectors_per_cluster * bytes_per_sector <= u64::MAX) by (nonlinear_arith)
            requires
                sectors_per_cluster <= u32::MAX,
                bytes_per_sector <= u32::MAX,
        ;
        VolumeCounts {
            unit_size: sectors_per_cluster as u64 * bytes_per_sector as u64,
            total_units: total_clusters as u64,
            free_units: free_clusters as u64,
            available_units: free_clusters as u64,
        }
    }
}

/// A snapshot of a volume's room, taken at one moment and never refreshed.
#[derive(Clone, Copy, Debug, PartialEq, Eq, Hash, Structural)]
pub struct FsStats {
    free_space: u64,
    available_space: u64,
    total_space: u64,
    allocation_granularity: u64,
}

impl View for FsStats {
    type V = Space;

    closed spec fn view(&self) -> Space {
        Space {
            free_space: self.free_space as nat,
            available_space: self.available_space as nat,
            total_space: self.total_space as nat,
            allocation_granularity: self.allocation_granularity as nat,
        }
    }
}

impl FsStats {
    #[verifier::type_invariant]
    spec fn ordered(self) -> bool {
        self.available_space <= self.free_space <= self.total_space
    }

    /// The free bytes on the volume.
    pub fn free_space(&self) -> (bytes: u64)
        ensures
            bytes == self@.free_space,
            self@.available_space <= bytes <= self@.total_space,
    {
        proof {
            use_type_invariant(self);
        }
        self.free_space
    }

    /// The free bytes that a caller without privileges may use.
    pub fn available_space(&self) -> (bytes: u64)
        ensures
            bytes == self@.available_space,
            bytes <= self@.free_space,
            bytes <= self@.total_space,
    {
        proof {
            use_type_invariant(self);
        }
        self.available_space
    }

    /// The size of the volume in bytes.
    pub fn total_space(&self) -> (bytes: u64)
        ensures
            bytes == self@.total_space,
            bytes >= self@.free_space,
            bytes >= self@.available_space,
    {
        proof {
            use_type_invariant(self);
        }
        self.total_space
    }

    /// The unit, in bytes, in which the volume reserves space for a file: its
    /// block size, or its cluster size.
    pub fn allocation_granularity(&self) -> (bytes: u64)
        ensures
            bytes == self@.allocation_granularity,
    {
        self.allocation_granularity
    }
}

/// Byte sizes keep the order of the counts they are made of.
pub proof fn lemma_scaling_keeps_order(unit: nat, fewer: nat, more: nat)
    by (nonlinear_arith)
    requires
        fewer <= more,
    ensures
        unit * fewer <= unit * more,
{
}

/// Whatever a volume reports, a snapshot that is made of the report is
/// ordered: the total is at least the free space, the total is at least the
/// available space, and the available space is at most the free space. Every
/// size in it fits 64 bits.
pub proof fn lemma_snapshot_is_ordered(counts: VolumeCounts)
    ensures
        match counts.snapshot() {
            Ok(space) => {
                &&& space.ordered()
                &&& space.total_space >= space.free_space
                &&& space.total_space >= space.available_space
                &&& space.available_space <= space.free_space
                &&& space.total_space <= u64::MAX
            },
            Err(e) => e == Error::BadStats,
        },
{
    if counts.consistent() {
        lemma_scaling_keeps_order(
            counts.unit_size as nat,
            counts.available_units as nat,
            counts.free_units as nat,
        );
        lemma_scaling_keeps_order(
            counts.unit_size as nat,
            counts.free_units as nat,
            counts.total_units as nat,
        );
    }
}

/// Takes the statistics of a volume from the counts it reported, all four
/// from this one report. Counts that cannot hold together, or whose total
/// does not fit 64 bits, are refused with [`Error::BadStats`].
pub fn statvfs(counts: VolumeCounts) -> (stats: Result<FsStats, Error>)
    ensures
        match stats {
            Ok(s) => counts.consistent() && s@ == counts.space(),
            Err(e) => !counts.consistent() && e == Error::BadStats,
        },
{
    if counts.available_units > counts.free_units || counts.free_units > counts.total_units {
        return Err(Error::BadStats);
    }
    match counts.unit_size.checked_mul(counts.total_units) {
        None => Err(Error::BadStats),
        Some(total_space) => {
            proof {
                lemma_snapshot_is_ordered(counts);
            }
            Ok(
                FsStats {
                    free_space: counts.unit_size * counts.free_units,
                    available_space: counts.unit_size * counts.available_units,
                    total_space,
                    allocation_granularity: counts.unit_size,
                },
            )
        },
    }
}

/// The free bytes on the volume that reported `counts`.
pub fn free_space(counts: VolumeCounts) -> (bytes: Result<u64, Error>)
    ensures
        match counts.snapshot() {
            Ok(space) => bytes == Ok::<u64, Error>(space.free_space as u64),
            Err(e) => bytes == Err::<u64, Error>(e),
        },
{
    match statvfs(counts) {
        Ok(stats) => Ok(stats.free_space()),
        Err(e) => Err(e),
    }
}

/// The bytes on the volume that reported `counts` which a caller without
/// privileges may use.
pub fn available_space(counts: VolumeCounts) -> (bytes: Result<u64, Error>)
    ensures
        match counts.snapshot() {
            Ok(space) => bytes == Ok::<u64, Error>(space.available_space as u64),
            Err(e) => bytes == Err::<u64, Error>(e),
        },
{
    match statvfs(counts) {
        Ok(stats) => Ok(stats.available_space()),
        Err(e) => Err(e),
    }
}

/// The size in bytes of the volume that reported `counts`.
pub fn total_space(counts: VolumeCounts) -> (bytes: Result<u64, Error>)
    ensures
        match counts.snapshot() {
            Ok(space) => bytes == Ok::<u64, Error>(space.total_space as u64),
            Err(e) => bytes == Err::<u64, Error>(e),
        },
{
    match statvfs(counts) {
        Ok(stats) => Ok(stats.total_space()),
        Err(e) => Err(e),
    }
}

/// The allocation granularity in bytes of the volume that reported `counts`.
pub fn allocation_granularity(counts: VolumeCounts) -> (bytes: Result<u64, Error>)
    ensures
        match counts.snapshot() {
            Ok(space) => bytes == Ok::<u64, Error>(space.allocation_granularity as u64),
            Err(e) => bytes == Err::<u64, Error>(e),
        },
{
    match statvfs(counts) {
        Ok(stats) => Ok(stats.allocation_granularity()),
        Err(e) => Err(e),
    }
}

} // verus!
