//! Reserving physical space for a file.
//!
//! A volume hands out space in units of its allocation granularity, so what
//! is reserved for a file is always a whole number of such units, while the
//! file's length is counted in bytes. [`FileSpace`] keeps the two numbers of
//! one file and changes them as a reservation and a change of length do.

use vstd::prelude::*;
use vstd::arithmetic::div_mod::{
    lemma_fundamental_div_mod, lemma_fundamental_div_mod_converse, lemma_mod_decreases,
    lemma_mod_multiples_basic, lemma_small_mod,
};
use crate::error::Error;

verus! {

/// The bytes that `len` bytes take up on a volume which reserves space in
/// units of `granularity` bytes: `len` divided by the granularity, rounded
/// up, times the granularity.
pub open spec fn covering(len: nat, granularity: nat) -> nat {
    (((len + granularity - 1) / (granularity as int)) * granularity) as nat
}

proof fn lemma_positive_multiple_is_a_unit(unit: int, times: int)
    by (nonlinear_arith)
    requires
        unit > 0,
        unit * times > 0,
    ensures
        unit * times >= unit,
{
}

/// `covering` is a multiple of the granularity, it is at least `len`, and
/// it exceeds `len` by less than one unit: `len` itself where `len` is a
/// multiple, and the next multiple above `len` where it is not.
pub proof fn lemma_covering_bounds(len: nat, granularity: nat)
    requires
        granularity > 0,
    ensures
        covering(len, granularity) % granularity == 0,
        len <= covering(len, granularity) < len + granularity,
        len % granularity == 0 ==> covering(len, granularity) == len,
        len % granularity != 0 ==> covering(len, granularity) == len - len % granularity
            + granularity,
{
    let n = len as int;
    let g = granularity as int;
    let q = n / g;
    let r = n % g;
    lemma_fundamental_div_mod(n, g);
    assert(g * q == q * g) by (nonlinear_arith);
    if r == 0 {
        lemma_fundamental_div_mod_converse(n + g - 1, g, q, g - 1);
        lemma_mod_multiples_basic(q, g);
    } else {
        assert((q + 1) * g == q * g + g) by (nonlinear_arith);
        lemma_fundamental_div_mod_converse(n + g - 1, g, q + 1, r - 1);
        lemma_mod_multiples_basic(q + 1, g);
    }
}

/// No multiple of the granularity lies between `len` and `covering`: every
/// whole number of units that holds `len` bytes holds `covering` bytes too.
pub proof fn lemma_covering_is_least(len: nat, granularity: nat, multiple: nat)
    requires
        granularity > 0,
        multiple % granularity == 0,
        len <= multiple,
    ensures
        covering(len, granularity) <= multiple,
{
    let g = granularity as int;
    let c = covering(len, granularity) as int;
    let m = multiple as int;
    lemma_covering_bounds(len, granularity);
    lemma_fundamental_div_mod(c, g);
    lemma_fundamental_div_mod(m, g);
    if c > m {
        assert(g * (c / g) - g * (m / g) == g * (c / g - m / g)) by (nonlinear_arith);
        lemma_positive_multiple_is_a_unit(g, c / g - m / g);
    }
}

/// The bytes that `len` bytes take up on a volume with the given allocation
/// granularity, or `None` where the granularity is zero or the size does not
/// fit 64 bits.
pub fn covering_size(len: u64, granularity: u64) -> (size: Option<u64>)
    ensures
        match size {
            Some(bytes) => granularity > 0 && bytes == covering(len as nat, granularity as nat),
            None => granularity == 0 || covering(len as nat, granularity as nat) > u64::MAX,
        },
{
    if granularity == 0 {
        return None;
    }
    proof {
        lemma_covering_bounds(len as nat, granularity as nat);
        lemma_mod_decreases(len as nat, granularity as nat);
    }
    let rest: u64 = len % granularity;
    if rest == 0 {
        Some(len)
    } else {
        (len - rest).checked_add(granularity)
    }
}

/// The length of a file and the space reserved for it, as mathematical
/// integers, on a volume that can give the file `capacity` bytes at most.
pub struct Reservation {
    pub granularity: nat,
    pub capacity: nat,
    pub length: nat,
    pub allocated: nat,
}

impl Reservation {
    /// The reservation is a whole number of allocation units and within what
    /// the volume can give.
    pub open spec fn wf(self) -> bool {
        &&& self.granularity > 0
        &&& self.allocated % self.granularity == 0
        &&& self.allocated <= self.capacity
    }

    /// A file that was just created: no length, nothing reserved.
    pub open spec fn fresh(granularity: nat, capacity: nat) -> Reservation {
        Reservation { granularity, capacity, length: 0, allocated: 0 }
    }

    /// Whether the volume can hold a reservation for `len` bytes.
    pub open spec fn can_allocate(self, len: nat) -> bool {
        covering(len, self.granularity) <= self.capacity
    }

    /// The file after `len` bytes were reserved for it: the reservation covers
    /// `len` bytes and the length is at least `len`; neither ever shrinks.
    pub open spec fn allocate(self, len: nat) -> Reservation {
        Reservation {
            length: if self.length < len {
                len
            } else {
                self.length
            },
            allocated: if self.allocated < covering(len, self.granularity) {
                covering(len, self.granularity)
            } else {
                self.allocated
            },
            ..self
        }
    }

    /// The file after its length was set to `len`: what is reserved beyond
    /// the units that hold `len` bytes goes back to the volume, and nothing
    /// is reserved in addition.
    pub open spec fn set_len(self, len: nat) -> Reservation {
        Reservation {
            length: len,
            allocated: if covering(len, self.granularity) < self.allocated {
                covering(len, self.granularity)
            } else {
                self.allocated
            },
            ..self
        }
    }
}

/// The length of one file and the physical space reserved for it.
#[derive(Clone, Copy, Debug, PartialEq, Eq, Hash, Structural)]
pub struct FileSpace {
    granularity: u64,
    capacity: u64,
    length: u64,
    allocated: u64,
}

impl View for FileSpace {
    type V = Reservation;

    closed spec fn view(&self) -> Reservation {
        Reservation {
            granularity: self.granularity as nat,
            capacity: self.capacity as nat,
            length: self.length as nat,
            allocated: self.allocated as nat,
        }
    }
}

impl FileSpace {
    #[verifier::type_invariant]
    spec fn inv(self) -> bool {
        self@.wf()
    }

    /// A new, empty file on a volume that reserves space in units of
    /// `granularity` bytes and can give this file `capacity` bytes at most.
    /// A granularity of zero is refused with [`Error::BadStats`].
    pub fn new(granularity: u64, capacity: u64) -> (file: Result<FileSpace, Error>)
        ensures
            match file {
                Ok(f) => granularity > 0 && f@ == Reservation::fresh(
                    granularity as nat,
                    capacity as nat,
                ),
                Err(e) => granularity == 0 && e == Error::BadStats,
            },
    {
        if granularity == 0 {
            Err(Error::BadStats)
        } else {
            proof {
                lemma_small_mod(0, granularity as nat);
            }
            Ok(FileSpace { granularity, capacity, length: 0, allocated: 0 })
        }
    }

    /// The length of the file in bytes.
    pub fn len(&self) -> (bytes: u64)
        ensures
            bytes == self@.length,
    {
        self.length
    }

    /// The physical space reserved for the file, in bytes: always a whole
    /// number of allocation units.
    pub fn allocated_size(&self) -> (bytes: u64)
        ensures
            bytes == self@.allocated,
            self@.wf(),
    {
        proof {
            use_type_invariant(self);
        }
        self.allocated
    }

    /// The granularity, in bytes, in which space is reserved for the file.
    pub fn allocation_granularity(&self) -> (bytes: u64)
        ensures
            bytes == self@.granularity,
            bytes > 0,
    {
        proof {
            use_type_invariant(self);
        }
        self.granularity
    }

    /// Makes sure that at least `len` bytes are reserved for the file and
    /// that the file is at least `len` bytes long. Where the volume cannot
    /// hold the reservation, nothing changes and the call fails with
    /// [`Error::NoSpace`]: no part of the request is granted.
    pub fn allocate(&mut self, len: u64) -> (done: Result<(), Error>)
        ensures
            match done {
                Ok(()) => {
                    &&& old(self)@.can_allocate(len as nat)
                    &&& final(self)@ == old(self)@.allocate(len as nat)
                },
                Err(e) => {
                    &&& !old(self)@.can_allocate(len as nat)
                    &&& e == Error::NoSpace
                    &&& final(self)@ == old(self)@
                },
            },
    {
        proof {
            use_type_invariant(&*self);
            lemma_covering_bounds(len as nat, self.granularity as nat);
        }
        match covering_size(len, self.granularity) {
            None => Err(Error::NoSpace),
            Some(target) => {
                if target > self.capacity {
                    return Err(Error::NoSpace);
                }
                if self.allocated < target {
                    self.allocated = target;
                }
                if self.length < len {
                    self.length = len;
                }
                Ok(())
            },
        }
    }

    /// Sets the length of the file to `len` bytes. Shortening the file gives
    /// back what was reserved beyond the units that hold `len` bytes;
    /// lengthening it reserves nothing.
    pub fn set_len(&mut self, len: u64)
        ensures
            final(self)@ == old(self)@.set_len(len as nat),
    {
        proof {
            use_type_invariant(&*self);
            lemma_covering_bounds(len as nat, self.granularity as nat);
        }
        match covering_size(len, self.granularity) {
            None => {},
            Some(target) => {
                if target < self.allocated {
                    self.allocated = target;
                }
            },
        }
        self.length = len;
    }
}

/// A reservation that succeeds leaves a well-formed file whose reserved space
/// holds the `len` bytes asked for, is a whole number of units, and is no
/// less than before; the file is then at least `len` bytes long.
pub proof fn lemma_allocate_reserves(file: Reservation, len: nat)
    requires
        file.wf(),
        file.can_allocate(len),
    ensures
        file.allocate(len).wf(),
        file.allocate(len).allocated >= len,
        file.allocate(len).allocated >= file.allocated,
        file.allocate(len).allocated % file.granularity == 0,
        file.allocate(len).length >= len,
        file.allocate(len).length >= file.length,
{
    lemma_covering_bounds(len, file.granularity);
}

/// Where no more than the units that hold `len` bytes were reserved before,
/// exactly those are reserved after: `len` divided by the granularity,
/// rounded up, times the granularity. On a new file that is always so.
pub proof fn lemma_allocate_rounds_up(file: Reservation, len: nat)
    requires
        file.wf(),
        file.allocated <= covering(len, file.granularity),
    ensures
        file.allocate(len).allocated == covering(len, file.granularity),
        file.allocate(len).allocated == ((len + file.granularity - 1) / (file.granularity as int))
            * file.granularity,
        Reservation::fresh(file.granularity, file.capacity).allocate(len).allocated == covering(
            len,
            file.granularity,
        ),
{
    lemma_covering_bounds(len, file.granularity);
}

/// Asking for no more than is reserved already always succeeds and leaves
/// the reserved space as it is.
pub proof fn lemma_allocate_within_reserved(file: Reservation, len: nat)
    requires
        file.wf(),
        len <= file.allocated,
    ensures
        file.can_allocate(len),
        file.allocate(len).allocated == file.allocated,
{
    lemma_covering_is_least(len, file.granularity, file.allocated);
}

/// Reserving the same length a second time changes nothing.
pub proof fn lemma_allocate_twice(file: Reservation, len: nat)
    requires
        file.wf(),
    ensures
        file.allocate(len).allocate(len) == file.allocate(len),
{
}

/// Cutting a file to a length below what is reserved for it leaves reserved
/// exactly the units that hold the new length.
pub proof fn lemma_truncate_steps_down(file: Reservation, len: nat)
    requires
        file.wf(),
        len < file.allocated,
    ensures
        file.set_len(len).wf(),
        file.set_len(len).length == len,
        file.set_len(len).allocated == covering(len, file.granularity),
        file.set_len(len).allocated <= file.allocated,
{
    lemma_covering_bounds(len, file.granularity);
    lemma_covering_is_least(len, file.granularity, file.allocated);
}

} // verus!
