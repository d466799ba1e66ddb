//! Blocking mutexes: a "raw" mutex that only knows how to lock, and a mutex that
//! guards data with one.

use vstd::prelude::*;
use critical_section::CriticalSection;

verus! {

#[verifier::external_type_specification]
#[verifier::external_body]
pub struct ExCriticalSection<'cs>(CriticalSection<'cs>);

/// "Raw" in that it does not contain the protected data: it only implements the
/// locking mechanism. `lock` runs `f` under the lock and hands back what it returned.
pub trait RawMutex: Sized {
    /// A raw mutex in its initial state.
    fn init() -> Self;

    /// Runs `f` with the lock held and returns its result.
    fn lock<R, F: FnOnce() -> R>(&self, f: F) -> (r: R)
        requires
            f.requires(()),
        ensures
            f.ensures((), r),
    ;
}

/// `critical_section::with`: runs `f` inside a critical section and returns what `f` returned.
#[verifier::external_body]
fn with_critical_section<R, F: FnOnce() -> R>(f: F) -> (r: R)
    requires
        f.requires(()),
    ensures
        f.ensures((), r),
{
    critical_section::with(|_| f())
}

/// A raw mutex that locks by entering a critical section.
pub struct CriticalSectionRawMutex {}

impl CriticalSectionRawMutex {
    /// Create a new `CriticalSectionRawMutex`.
    pub fn new() -> (r: Self) {
        Self {}
    }
}

impl RawMutex for CriticalSectionRawMutex {
    fn init() -> (r: Self) {
        Self::new()
    }

    fn lock<R, F: FnOnce() -> R>(&self, f: F) -> (r: R) {
        with_critical_section(f)
    }
}

/// Data guarded by a raw mutex.
pub struct Mutex<R, T> {
    raw: R,
    data: T,
}

impl<R, T> Mutex<R, T> {
    /// The guarded data.
    pub closed spec fn data(&self) -> T {
        self.data
    }

    /// Creates a new mutex based on a pre-existing raw mutex.
    pub fn const_new(raw_mutex: R, val: T) -> (r: Mutex<R, T>)
        ensures
            r.data() == val,
    {
        Mutex { raw: raw_mutex, data: val }
    }

    /// Consumes this mutex, returning the underlying data.
    pub fn into_inner(self) -> (r: T)
        ensures
            r == self.data(),
    {
        self.data
    }

    /// Runs `f` on the data without taking the lock, for data that no longer changes.
    pub fn dirty_read<U, F: FnOnce(&T) -> U>(&self, f: F) -> (r: U)
        requires
            f.requires((&self.data(),)),
        ensures
            f.ensures((&self.data(),), r),
    {
        f(&self.data)
    }

    /// Returns a mutable reference to the underlying data: borrowing the mutex mutably
    /// already rules out any other access, so no locking takes place.
    pub fn get_mut(&mut self) -> (r: &mut T)
        ensures
            *r == old(self).data(),
            final(self).data() == *final(r),
    {
        &mut self.data
    }
}

impl<R: RawMutex, T> Mutex<R, T> {
    /// A mutex guarding `val`, with its raw mutex in the initial state.
    pub fn new(val: T) -> (r: Self)
        ensures
            r.data() == val,
    {
        Self { raw: R::init(), data: val }
    }

    /// Runs `f` on the data with the lock held and returns its result.
    pub fn lock<U, F: FnOnce(&T) -> U>(&self, f: F) -> (r: U)
        requires
            f.requires((&self.data(),)),
        ensures
            f.ensures((&self.data(),), r),
    {
        let data = &self.data;
        let g = || -> (u: U)
            requires
                f.requires((data,)),
            ensures
                f.ensures((data,), u),
        {
            f(data)
        };
        self.raw.lock(g)
    }
}

impl<T> Mutex<CriticalSectionRawMutex, T> {
    /// Borrows the data for as long as the critical section `_cs` lasts: being inside a
    /// critical section already rules out any other access.
    pub fn borrow<'cs>(&'cs self, _cs: CriticalSection<'cs>) -> (r: &'cs T)
        ensures
            *r == self.data(),
    {
        &self.data
    }
}

} // verus!
