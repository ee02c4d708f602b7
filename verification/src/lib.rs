//! One contract for three families of file operations that operating systems
//! offer in diverging ways: advisory whole-file locks, reserving physical
//! space for a file, and asking a volume how much room it has.
//!
//! The crate states what every platform has to guarantee and proves it of a
//! model: how a reported failure is recognised as lock contention
//! ([`error`]), what a snapshot of a volume holds ([`stats`]), which locks
//! may coexist on one file ([`lock`]) and how a reservation follows the
//! volume's allocation granularity ([`allocation`]).

pub mod allocation;
pub mod error;
pub mod lock;
pub mod stats;

pub use allocation::{covering_size, FileSpace, Reservation};
pub use error::{lock_contended_error, Error};
pub use lock::{Description, Handle, LockMode, LockTable};
pub use stats::{
    allocation_granularity, available_space, free_space, statvfs, total_space, FsStats, Space,
    VolumeCounts,
};
