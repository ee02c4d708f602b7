//! Advisory locks on a whole file.
//!
//! A lock belongs to an open file description, not to a handle: handles that
//! were duplicated from one another share one lock, and the lock goes when
//! the last of them is closed. Any number of descriptions may hold a shared
//! lock on a file at once, or one of them an exclusive lock, never both.
//! [`LockTable`] keeps the descriptions that are open on one file and grants
//! or refuses their requests by that rule. Every handle takes one of a
//! limited number of slots.

use vstd::prelude::*;
use crate::error::Error;

verus! {

/// The two ways in which a file can be locked.
#[derive(Clone, Copy, Debug, PartialEq, Eq, Hash, Structural)]
pub enum LockMode {
    /// For reading: coexists with other shared locks.
    Shared,
    /// For reading and writing: coexists with no other lock.
    Exclusive,
}

/// One open file description: the number of handles that refer to it, and
/// the lock it holds. A description without a handle is closed.
#[derive(Clone, Copy, Debug)]
pub struct Description {
    pub handles: u64,
    pub lock: Option<LockMode>,
}

/// Whether a lock held by one description stands in the way of a request for
/// `asked` by another.
pub open spec fn excludes(held: Option<LockMode>, asked: LockMode) -> bool {
    match held {
        None => false,
        Some(LockMode::Shared) => asked == LockMode::Exclusive,
        Some(LockMode::Exclusive) => true,
    }
}

/// Whether `d` is a description with at least one handle.
pub open spec fn is_open(files: Seq<Description>, d: int) -> bool {
    0 <= d < files.len() && files[d].handles > 0
}

/// Whether no description other than `d` holds a lock that stands in the way
/// of `asked`. A lock that `d` holds itself never does: a second request
/// replaces it.
pub open spec fn grantable(files: Seq<Description>, d: int, asked: LockMode) -> bool {
    forall|other: int|
        0 <= other < files.len() && other != d ==> !excludes(#[trigger] files[other].lock, asked)
}

/// What holds of the descriptions of one file at any time: a closed
/// description holds no lock, and beside an exclusive lock there is no other
/// lock.
pub open spec fn wf(files: Seq<Description>) -> bool {
    &&& forall|d: int|
        0 <= d < files.len() && (#[trigger] files[d]).handles == 0 ==> files[d].lock is None
    &&& forall|d: int, other: int|
        0 <= d < files.len() && 0 <= other < files.len() && d != other && (#[trigger] files[d]).lock
            == Some(LockMode::Exclusive) ==> (#[trigger] files[other]).lock is None
}

/// The handles that refer to any of the descriptions.
pub open spec fn handles_in_use(files: Seq<Description>) -> nat
    decreases files.len(),
{
    if files.len() == 0 {
        0
    } else {
        handles_in_use(files.drop_last()) + files.last().handles as nat
    }
}

/// A further description adds its handles to those in use.
pub proof fn lemma_in_use_after_push(files: Seq<Description>, next: Description)
    ensures
        handles_in_use(files.push(next)) == handles_in_use(files) + next.handles,
{
    assert(files.push(next).drop_last() =~= files);
}

/// A description never has more handles than are in use, and a change to one
/// description changes the handles in use by as much as its own.
pub proof fn lemma_in_use_after_update(files: Seq<Description>, d: int, next: Description)
    requires
        0 <= d < files.len(),
    ensures
        files[d].handles <= handles_in_use(files),
        handles_in_use(files.update(d, next)) == handles_in_use(files) - files[d].handles
            + next.handles,
    decreases files.len(),
{
    let updated = files.update(d, next);
    if d == files.len() - 1 {
        assert(updated.drop_last() =~= files.drop_last());
    } else {
        assert(updated.drop_last() =~= files.drop_last().update(d, next));
        lemma_in_use_after_update(files.drop_last(), d, next);
    }
}

/// Whether a further handle can be given out where `limit` handles at most
/// can be open at once.
pub open spec fn has_room(files: Seq<Description>, limit: nat) -> bool {
    handles_in_use(files) < limit
}

/// The descriptions after the file was opened once more.
pub open spec fn after_open(files: Seq<Description>) -> Seq<Description> {
    files.push(Description { handles: 1, lock: None })
}

/// The descriptions after a handle of `d` was duplicated.
pub open spec fn after_duplicate(files: Seq<Description>, d: int) -> Seq<Description> {
    files.update(d, Description { handles: (files[d].handles + 1) as u64, ..files[d] })
}

/// The descriptions after a handle of `d` was closed: with its last handle
/// the description gives up its lock.
pub open spec fn after_close(files: Seq<Description>, d: int) -> Seq<Description> {
    if files[d].handles == 1 {
        files.update(d, Description { handles: 0, lock: None })
    } else {
        files.update(d, Description { handles: (files[d].handles - 1) as u64, ..files[d] })
    }
}

/// The descriptions after the lock of `d` was set to `lock`.
pub open spec fn with_lock(files: Seq<Description>, d: int, lock: Option<LockMode>) -> Seq<
    Description,
> {
    files.update(d, Description { lock, ..files[d] })
}

/// The answer to a request of `d` for a lock that it does not wait for.
pub open spec fn try_lock_answer(files: Seq<Description>, d: int, asked: LockMode) -> Result<
    (),
    Error,
> {
    if !is_open(files, d) {
        Err(Error::BadHandle)
    } else if !grantable(files, d, asked) {
        Err(Error::Contended)
    } else {
        Ok(())
    }
}

/// The descriptions after a request of `d` for a lock that it does not wait
/// for: a request that is refused changes nothing.
pub open spec fn after_try_lock(files: Seq<Description>, d: int, asked: LockMode) -> Seq<
    Description,
> {
    if try_lock_answer(files, d, asked) is Ok {
        with_lock(files, d, Some(asked))
    } else {
        files
    }
}

/// The answer to `d` giving up its lock: giving up a lock that is not held
/// is no failure.
pub open spec fn unlock_answer(files: Seq<Description>, d: int) -> Result<(), Error> {
    if is_open(files, d) {
        Ok(())
    } else {
        Err(Error::BadHandle)
    }
}

/// The descriptions after `d` gave up its lock.
pub open spec fn after_unlock(files: Seq<Description>, d: int) -> Seq<Description> {
    if is_open(files, d) {
        with_lock(files, d, None)
    } else {
        files
    }
}

/// A reference to an open file description. Handles that were duplicated
/// from one another refer to the same description. A handle means something
/// only to the table that gave it out.
#[derive(Debug)]
pub struct Handle {
    description: usize,
}

impl View for Handle {
    type V = int;

    /// The description that the handle refers to.
    closed spec fn view(&self) -> int {
        self.description as int
    }
}

/// The file descriptions that are open on one file, with the locks they
/// hold, on a platform that gives out a limited number of handles.
#[derive(Debug)]
pub struct LockTable {
    files: Vec<Description>,
    limit: u64,
    in_use: u64,
}

impl View for LockTable {
    type V = Seq<Description>;

    closed spec fn view(&self) -> Seq<Description> {
        self.files@
    }
}

impl LockTable {
    #[verifier::type_invariant]
    spec fn inv(self) -> bool {
        &&& wf(self.files@)
        &&& self.in_use == handles_in_use(self.files@)
        &&& self.in_use <= self.limit
    }

    /// The number of handles that can be open at once.
    pub closed spec fn limit(&self) -> nat {
        self.limit as nat
    }

    /// A file that nobody has opened, where `limit` handles at most can be
    /// open at once.
    pub fn new(limit: u64) -> (table: LockTable)
        ensures
            table@ == Seq::<Description>::empty(),
            table.limit() == limit,
            handles_in_use(table@) == 0,
            wf(table@),
    {
        LockTable { files: Vec::new(), limit, in_use: 0 }
    }

    /// Opens the file: a new description with one handle and no lock. Fails
    /// with [`Error::Exhausted`] when every handle is in use or no further
    /// description can be kept; nothing changes then.
    pub fn open(&mut self) -> (handle: Result<Handle, Error>)
        ensures
            wf(final(self)@),
            final(self).limit() == old(self).limit(),
            match handle {
                Ok(h) => {
                    &&& has_room(old(self)@, old(self).limit())
                    &&& old(self)@.len() < usize::MAX
                    &&& h@ == old(self)@.len()
                    &&& final(self)@ == after_open(old(self)@)
                    &&& handles_in_use(final(self)@) == handles_in_use(old(self)@) + 1
                },
                Err(e) => {
                    &&& !has_room(old(self)@, old(self).limit()) || old(self)@.len() >= usize::MAX
                    &&& e == Error::Exhausted
                    &&& final(self)@ == old(self)@
                },
            },
    {
        proof {
            use_type_invariant(&*self);
        }
        let description: usize = self.files.len();
        if self.in_use == self.limit || description == usize::MAX {
            return Err(Error::Exhausted);
        }
        let mut taken = LockTable { files: Vec::new(), limit: 0, in_use: 0 };
        std::mem::swap(self, &mut taken);
        let LockTable { mut files, limit, in_use } = taken;
        proof {
            lemma_steps_keep_wf(files@, 0, LockMode::Shared);
            lemma_in_use_after_push(files@, Description { handles: 1, lock: None });
        }
        files.push(Description { handles: 1, lock: None });
        *self = LockTable { files, limit, in_use: in_use + 1 };
        Ok(Handle { description })
    }

    /// Gives a second handle to the description of `handle`. The two share
    /// whatever lock the description holds. Fails with [`Error::BadHandle`]
    /// when the description is closed, and with [`Error::Exhausted`] when
    /// every handle is in use; nothing changes then.
    pub fn duplicate(&mut self, handle: &Handle) -> (copy: Result<Handle, Error>)
        ensures
            wf(final(self)@),
            final(self).limit() == old(self).limit(),
            match copy {
                Ok(h) => {
                    &&& is_open(old(self)@, handle@)
                    &&& has_room(old(self)@, old(self).limit())
                    &&& h@ == handle@
                    &&& final(self)@ == after_duplicate(old(self)@, handle@)
                    &&& handles_in_use(final(self)@) == handles_in_use(old(self)@) + 1
                },
                Err(e) => {
                    &&& final(self)@ == old(self)@
                    &&& if is_open(old(self)@, handle@) {
                        !has_room(old(self)@, old(self).limit()) && e == Error::Exhausted
                    } else {
                        e == Error::BadHandle
                    }
                },
            },
    {
        proof {
            use_type_invariant(&*self);
        }
        let d: usize = handle.description;
        if d >= self.files.len() || self.files[d].handles == 0 {
            return Err(Error::BadHandle);
        }
        if self.in_use == self.limit {
            return Err(Error::Exhausted);
        }
        let now: Description = self.files[d];
        proof {
            lemma_in_use_after_update(self.files@, d as int, now);
            lemma_steps_keep_wf(self@, d as int, LockMode::Shared);
        }
        let in_use: u64 = self.in_use + 1;
        self.store(d, Description { handles: now.handles + 1, lock: now.lock }, in_use);
        Ok(Handle { description: d })
    }

    /// Closes `handle`. When it was the last handle of its description, the
    /// description's lock is released with it. Fails with
    /// [`Error::BadHandle`] when the description is closed already.
    pub fn close(&mut self, handle: Handle) -> (done: Result<(), Error>)
        ensures
            wf(final(self)@),
            final(self).limit() == old(self).limit(),
            match done {
                Ok(()) => {
                    &&& is_open(old(self)@, handle@)
                    &&& final(self)@ == after_close(old(self)@, handle@)
                    &&& handles_in_use(final(self)@) == handles_in_use(old(self)@) - 1
                },
                Err(e) => {
                    &&& !is_open(old(self)@, handle@)
                    &&& e == Error::BadHandle
                    &&& final(self)@ == old(self)@
                },
            },
    {
        proof {
            use_type_invariant(&*self);
        }
        let d: usize = handle.description;
        if d >= self.files.len() || self.files[d].handles == 0 {
            return Err(Error::BadHandle);
        }
        let now: Description = self.files[d];
        proof {
            lemma_in_use_after_update(self.files@, d as int, now);
            lemma_steps_keep_wf(self@, d as int, LockMode::Shared);
        }
        let in_use: u64 = self.in_use - 1;
        if now.handles == 1 {
            self.store(d, Description { handles: 0, lock: None }, in_use);
        } else {
            self.store(d, Description { handles: now.handles - 1, lock: now.lock }, in_use);
        }
        Ok(())
    }

    fn store(&mut self, d: usize, next: Description, in_use: u64)
        requires
            d < old(self)@.len(),
            wf(old(self)@.update(d as int, next)),
            in_use == handles_in_use(old(self)@) - old(self)@[d as int].handles + next.handles,
            in_use <= old(self).limit(),
        ensures
            final(self)@ == old(self)@.update(d as int, next),
            final(self).limit() == old(self).limit(),
            handles_in_use(final(self)@) == in_use,
    {
        let mut taken = LockTable { files: Vec::new(), limit: 0, in_use: 0 };
        std::mem::swap(self, &mut taken);
        let LockTable { mut files, limit, in_use: _ } = taken;
        proof {
            lemma_in_use_after_update(files@, d as int, next);
        }
        files.set(d, next);
        *self = LockTable { files, limit, in_use };
    }

    fn is_grantable(&self, d: usize, asked: LockMode) -> (free: bool)
        ensures
            free == grantable(self@, d as int, asked),
    {
        let mut other: usize = 0;
        while other < self.files.len()
            invariant
                other <= self.files@.len(),
                forall|seen: int|
                    0 <= seen < other && seen != d ==> !excludes(
                        #[trigger] self.files@[seen].lock,
                        asked,
                    ),
            decreases self.files@.len() - other,
        {
            if other != d {
                let in_the_way: bool = match self.files[other].lock {
                    None => false,
                    Some(LockMode::Exclusive) => true,
                    Some(LockMode::Shared) => match asked {
                        LockMode::Shared => false,
                        LockMode::Exclusive => true,
                    },
                };
                if in_the_way {
                    assert(excludes(self.files@[other as int].lock, asked));
                    return false;
                }
            }
            other += 1;
        }
        true
    }

    fn acquire(&mut self, handle: &Handle, asked: LockMode) -> (done: Result<(), Error>)
        ensures
            wf(final(self)@),
            final(self).limit() == old(self).limit(),
            done == try_lock_answer(old(self)@, handle@, asked),
            final(self)@ == after_try_lock(old(self)@, handle@, asked),
            handles_in_use(final(self)@) == handles_in_use(old(self)@),
    {
        proof {
            use_type_invariant(&*self);
        }
        let d: usize = handle.description;
        if d >= self.files.len() || self.files[d].handles == 0 {
            return Err(Error::BadHandle);
        }
        if !self.is_grantable(d, asked) {
            return Err(Error::Contended);
        }
        let now: Description = self.files[d];
        proof {
            lemma_grant_keeps_wf(self.files@, d as int, asked);
        }
        let in_use: u64 = self.in_use;
        self.store(d, Description { handles: now.handles, lock: Some(asked) }, in_use);
        Ok(())
    }

    /// Asks for a shared lock without waiting. Fails with
    /// [`Error::Contended`] when another description holds an exclusive lock,
    /// and with [`Error::BadHandle`] when the description is closed; nothing
    /// changes then. A description that holds a lock already exchanges it.
    pub fn try_lock_shared(&mut self, handle: &Handle) -> (done: Result<(), Error>)
        ensures
            wf(final(self)@),
            final(self).limit() == old(self).limit(),
            done == try_lock_answer(old(self)@, handle@, LockMode::Shared),
            final(self)@ == after_try_lock(old(self)@, handle@, LockMode::Shared),
            handles_in_use(final(self)@) == handles_in_use(old(self)@),
    {
        self.acquire(handle, LockMode::Shared)
    }

    /// Asks for an exclusive lock without waiting. Fails with
    /// [`Error::Contended`] when another description holds any lock, and with
    /// [`Error::BadHandle`] when the description is closed; nothing changes
    /// then. A description that holds a lock already exchanges it.
    pub fn try_lock_exclusive(&mut self, handle: &Handle) -> (done: Result<(), Error>)
        ensures
            wf(final(self)@),
            final(self).limit() == old(self).limit(),
            done == try_lock_answer(old(self)@, handle@, LockMode::Exclusive),
            final(self)@ == after_try_lock(old(self)@, handle@, LockMode::Exclusive),
            handles_in_use(final(self)@) == handles_in_use(old(self)@),
    {
        self.acquire(handle, LockMode::Exclusive)
    }

    /// Takes a shared lock. On a platform the caller is suspended until the
    /// lock can be granted and never learns of contention; here a call that
    /// would be suspended is not admitted.
    pub fn lock_shared(&mut self, handle: &Handle) -> (done: Result<(), Error>)
        requires
            is_open(old(self)@, handle@) ==> grantable(old(self)@, handle@, LockMode::Shared),
        ensures
            wf(final(self)@),
            done != Err::<(), Error>(Error::Contended),
            final(self).limit() == old(self).limit(),
            done == try_lock_answer(old(self)@, handle@, LockMode::Shared),
            final(self)@ == after_try_lock(old(self)@, handle@, LockMode::Shared),
            handles_in_use(final(self)@) == handles_in_use(old(self)@),
    {
        self.acquire(handle, LockMode::Shared)
    }

    /// Takes an exclusive lock. On a platform the caller is suspended until
    /// the lock can be granted and never learns of contention; here a call
    /// that would be suspended is not admitted.
    pub fn lock_exclusive(&mut self, handle: &Handle) -> (done: Result<(), Error>)
        requires
            is_open(old(self)@, handle@) ==> grantable(old(self)@, handle@, LockMode::Exclusive),
        ensures
            wf(final(self)@),
            done != Err::<(), Error>(Error::Contended),
            final(self).limit() == old(self).limit(),
            done == try_lock_answer(old(self)@, handle@, LockMode::Exclusive),
            final(self)@ == after_try_lock(old(self)@, handle@, LockMode::Exclusive),
            handles_in_use(final(self)@) == handles_in_use(old(self)@),
    {
        self.acquire(handle, LockMode::Exclusive)
    }

    /// Gives up whatever lock the description of `handle` holds. That it
    /// holds none is no failure. Fails with [`Error::BadHandle`] when the
    /// description is closed.
    pub fn unlock(&mut self, handle: &Handle) -> (done: Result<(), Error>)
        ensures
            wf(final(self)@),
            final(self).limit() == old(self).limit(),
            done == unlock_answer(old(self)@, handle@),
            final(self)@ == after_unlock(old(self)@, handle@),
            handles_in_use(final(self)@) == handles_in_use(old(self)@),
    {
        proof {
            use_type_invariant(&*self);
        }
        let d: usize = handle.description;
        if d >= self.files.len() || self.files[d].handles == 0 {
            return Err(Error::BadHandle);
        }
        let now: Description = self.files[d];
        proof {
            lemma_steps_keep_wf(self@, d as int, LockMode::Shared);
        }
        let in_use: u64 = self.in_use;
        self.store(d, Description { handles: now.handles, lock: None }, in_use);
        Ok(())
    }
}

/// Granting a request that no other lock stands in the way of keeps the rule
/// that beside an exclusive lock there is no other lock.
pub proof fn lemma_grant_keeps_wf(files: Seq<Description>, d: int, asked: LockMode)
    requires
        wf(files),
        is_open(files, d),
        grantable(files, d, asked),
    ensures
        wf(with_lock(files, d, Some(asked))),
{
    let next = with_lock(files, d, Some(asked));
    assert forall|a: int, b: int|
        0 <= a < next.len() && 0 <= b < next.len() && a != b && (#[trigger] next[a]).lock == Some(
            LockMode::Exclusive,
        ) implies (#[trigger] next[b]).lock is None by {
        if a == d {
            assert(!excludes(files[b].lock, asked));
        } else if b == d {
            assert(!excludes(files[a].lock, asked));
        } else {
            assert(files[a].lock == Some(LockMode::Exclusive));
            assert(files[b].lock is None);
        }
    }
}

/// Every step leads from descriptions that keep the rule to descriptions
/// that keep it.
pub proof fn lemma_steps_keep_wf(files: Seq<Description>, d: int, asked: LockMode)
    requires
        wf(files),
    ensures
        wf(after_open(files)),
        is_open(files, d) && files[d].handles < u64::MAX ==> wf(after_duplicate(files, d)),
        is_open(files, d) ==> wf(after_close(files, d)),
        wf(after_try_lock(files, d, asked)),
        wf(after_unlock(files, d)),
{
    let opened = after_open(files);
    assert forall|a: int, b: int|
        0 <= a < opened.len() && 0 <= b < opened.len() && a != b && (#[trigger] opened[a]).lock
            == Some(LockMode::Exclusive) implies (#[trigger] opened[b]).lock is None by {
        if b < files.len() {
            assert(files[a].lock == Some(LockMode::Exclusive));
            assert(files[b].lock is None);
        }
    }
    if is_open(files, d) {
        let copied = after_duplicate(files, d);
        assert forall|a: int, b: int|
            0 <= a < copied.len() && 0 <= b < copied.len() && a != b && (#[trigger] copied[a]).lock
                == Some(LockMode::Exclusive) implies (#[trigger] copied[b]).lock is None by {
            assert(files[a].lock == Some(LockMode::Exclusive));
            assert(files[b].lock is None);
        }
        let shut = after_close(files, d);
        assert forall|a: int, b: int|
            0 <= a < shut.len() && 0 <= b < shut.len() && a != b && (#[trigger] shut[a]).lock
                == Some(LockMode::Exclusive) implies (#[trigger] shut[b]).lock is None by {
            assert(files[a].lock == Some(LockMode::Exclusive));
            assert(files[b].lock is None);
        }
        let freed = after_unlock(files, d);
        assert forall|a: int, b: int|
            0 <= a < freed.len() && 0 <= b < freed.len() && a != b && (#[trigger] freed[a]).lock
                == Some(LockMode::Exclusive) implies (#[trigger] freed[b]).lock is None by {
            assert(files[a].lock == Some(LockMode::Exclusive));
            assert(files[b].lock is None);
        }
        if grantable(files, d, asked) {
            lemma_grant_keeps_wf(files, d, asked);
        }
    }
}

/// While one description holds an exclusive lock, every other description
/// that asks for a lock without waiting, shared or exclusive, is refused as
/// contended, and nothing changes.
pub proof fn lemma_exclusive_lock_shuts_out(files: Seq<Description>, holder: int, other: int)
    requires
        wf(files),
        is_open(files, holder),
        is_open(files, other),
        holder != other,
        files[holder].lock == Some(LockMode::Exclusive),
    ensures
        try_lock_answer(files, other, LockMode::Shared) == Err::<(), Error>(Error::Contended),
        try_lock_answer(files, other, LockMode::Exclusive) == Err::<(), Error>(Error::Contended),
        after_try_lock(files, other, LockMode::Shared) == files,
        after_try_lock(files, other, LockMode::Exclusive) == files,
{
    assert(excludes(files[holder].lock, LockMode::Shared));
    assert(excludes(files[holder].lock, LockMode::Exclusive));
}

/// Shared locks coexist, and they shut out an exclusive lock. Beside a
/// description that holds a shared lock a second one is granted a shared
/// lock too; a third that asks for an exclusive lock without waiting is
/// refused as contended while both hold theirs, and still while only one of
/// them does.
pub proof fn lemma_shared_locks_coexist(
    files: Seq<Description>,
    first: int,
    second: int,
    third: int,
)
    requires
        wf(files),
        is_open(files, first),
        is_open(files, second),
        is_open(files, third),
        first != second,
        first != third,
        second != third,
        files[first].lock == Some(LockMode::Shared),
    ensures
        try_lock_answer(files, second, LockMode::Shared) is Ok,
        after_try_lock(files, second, LockMode::Shared)[first].lock == Some(LockMode::Shared),
        after_try_lock(files, second, LockMode::Shared)[second].lock == Some(LockMode::Shared),
        try_lock_answer(files, third, LockMode::Exclusive) == Err::<(), Error>(Error::Contended),
        try_lock_answer(
            after_try_lock(files, second, LockMode::Shared),
            third,
            LockMode::Exclusive,
        ) == Err::<(), Error>(Error::Contended),
        try_lock_answer(
            after_unlock(after_try_lock(files, second, LockMode::Shared), first),
            third,
            LockMode::Exclusive,
        ) == Err::<(), Error>(Error::Contended),
        try_lock_answer(
            after_unlock(after_try_lock(files, second, LockMode::Shared), second),
            third,
            LockMode::Exclusive,
        ) == Err::<(), Error>(Error::Contended),
{
    assert forall|other: int| 0 <= other < files.len() && other != second implies !excludes(
        #[trigger] files[other].lock,
        LockMode::Shared,
    ) by {
        if other != first && files[other].lock == Some(LockMode::Exclusive) {
            assert(files[first].lock is None);
        }
    }
    let both = after_try_lock(files, second, LockMode::Shared);
    assert(excludes(files[first].lock, LockMode::Exclusive));
    assert(excludes(both[first].lock, LockMode::Exclusive));
    assert(excludes(after_unlock(both, first)[second].lock, LockMode::Exclusive));
    assert(excludes(after_unlock(both, second)[first].lock, LockMode::Exclusive));
}

/// Once the holders of shared locks have given them up, an exclusive lock is
/// granted: where no description but `first` and `second` stands in the way
/// of `third`, a request of `third` for an exclusive lock succeeds after the
/// two have unlocked, and `third` then holds it.
pub proof fn lemma_exclusive_after_release(
    files: Seq<Description>,
    first: int,
    second: int,
    third: int,
)
    requires
        wf(files),
        is_open(files, first),
        is_open(files, second),
        is_open(files, third),
        first != third,
        second != third,
        forall|d: int|
            0 <= d < files.len() && d != first && d != second && d != third ==> (
            #[trigger] files[d]).lock is None,
    ensures
        try_lock_answer(
            after_unlock(after_unlock(files, first), second),
            third,
            LockMode::Exclusive,
        ) is Ok,
        after_try_lock(
            after_unlock(after_unlock(files, first), second),
            third,
            LockMode::Exclusive,
        )[third].lock == Some(LockMode::Exclusive),
{
    let released = after_unlock(after_unlock(files, first), second);
    assert forall|other: int| 0 <= other < released.len() && other != third implies !excludes(
        #[trigger] released[other].lock,
        LockMode::Exclusive,
    ) by {
        if other != first && other != second {
            assert(files[other].lock is None);
        }
    }
}

/// Closing the last handle of a description releases its lock without any
/// call to unlock: where no description but `holder` stands in the way of
/// `other`, a request of `other` succeeds after `holder` was closed,
/// whichever lock `holder` held and whichever lock `other` asks for.
pub proof fn lemma_close_releases_lock(
    files: Seq<Description>,
    holder: int,
    other: int,
    asked: LockMode,
)
    requires
        wf(files),
        is_open(files, holder),
        is_open(files, other),
        holder != other,
        files[holder].handles == 1,
        forall|d: int|
            0 <= d < files.len() && d != holder && d != other ==> (#[trigger] files[d]).lock is None,
    ensures
        !is_open(after_close(files, holder), holder),
        try_lock_answer(after_close(files, holder), other, asked) is Ok,
        after_try_lock(after_close(files, holder), other, asked)[other].lock == Some(asked),
{
    let shut = after_close(files, holder);
    assert forall|d: int| 0 <= d < shut.len() && d != other implies !excludes(
        #[trigger] shut[d].lock,
        asked,
    ) by {
        if d != holder {
            assert(files[d].lock is None);
        }
    }
}

/// Handles that were duplicated from one another share one lock: the copy
/// holds what the first handle holds without asking for it, closing either of
/// the two leaves the lock with the other, and a description with such a
/// lock left keeps other descriptions out as before.
pub proof fn lemma_duplicates_share_lock(files: Seq<Description>, d: int)
    requires
        wf(files),
        is_open(files, d),
        files[d].handles < u64::MAX,
    ensures
        after_duplicate(files, d)[d].lock == files[d].lock,
        is_open(after_close(after_duplicate(files, d), d), d),
        after_close(after_duplicate(files, d), d) == files,
{
    assert(after_close(after_duplicate(files, d), d) =~= files);
}

} // verus!
