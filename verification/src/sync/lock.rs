use crossbeam_utils::CachePadded;
use parking_lot::MappedRwLockReadGuard;
use parking_lot::MappedRwLockWriteGuard;
use parking_lot::RwLock;
use parking_lot::RwLockReadGuard;
use parking_lot::RwLockWriteGuard;
use vstd::prelude::*;

verus! {

/// `lock_api::RwLock`, the reader-writer lock of which
/// `parking_lot::RwLock` is an instance. Nothing is known of what it holds.
#[verifier::external_type_specification]
#[verifier::external_body]
#[verifier::reject_recursive_types(R)]
#[verifier::reject_recursive_types(T)]
pub struct ExRwLock<R, T: ?Sized>(parking_lot::lock_api::RwLock<R, T>);

/// `parking_lot::RawRwLock`, the lock proper inside `parking_lot::RwLock`.
#[verifier::external_type_specification]
#[verifier::external_body]
pub struct ExRawRwLock(parking_lot::RawRwLock);

/// `crossbeam_utils::CachePadded`, a value padded and aligned to the length
/// of a cache line.
#[verifier::external_type_specification]
#[verifier::external_body]
#[verifier::reject_recursive_types(T)]
pub struct ExCachePadded<T>(CachePadded<T>);

/// Exclusive access to what a lock protects, held until the guard is
/// dropped. It holds a `parking_lot::RwLockWriteGuard`.
#[verifier::external_body]
#[verifier::reject_recursive_types(T)]
pub(crate) struct WriteGuard<'a, T> {
    guard: RwLockWriteGuard<'a, T>,
}

/// Shared access to what a lock protects, held until the guard is dropped.
/// It holds a `parking_lot::RwLockReadGuard`.
#[verifier::external_body]
#[verifier::reject_recursive_types(T)]
pub(crate) struct ReadGuard<'a, T> {
    guard: RwLockReadGuard<'a, T>,
}

/// Shared access to a part of what a lock protects, for as long as the
/// guard lives. `guard` is the `parking_lot::MappedRwLockReadGuard` that
/// gives the access: dereference it to read.
#[verifier::external_body]
#[verifier::reject_recursive_types(T)]
pub struct MappedReadGuard<'a, T> {
    pub guard: MappedRwLockReadGuard<'a, T>,
}

/// Exclusive access to a part of what a lock protects, for as long as the
/// guard lives. `guard` is the `parking_lot::MappedRwLockWriteGuard` that
/// gives the access: dereference it to read and to write.
#[verifier::external_body]
#[verifier::reject_recursive_types(T)]
pub struct MappedWriteGuard<'a, T> {
    pub guard: MappedRwLockWriteGuard<'a, T>,
}

/// `parking_lot::RwLock::new`: an unlocked lock around `value`.
#[verifier::external_body]
pub(crate) fn new_lock<T>(value: T) -> RwLock<T> {
    RwLock::new(value)
}

/// `parking_lot::RwLock::write`: blocks until exclusive access is granted.
/// Nothing is known of what the lock protects but what its type says.
#[verifier::external_body]
pub(crate) fn lock_write<T>(lock: &RwLock<T>) -> WriteGuard<'_, T> {
    WriteGuard { guard: lock.write() }
}

/// `parking_lot::RwLock::read`: blocks until shared access is granted.
/// Nothing is known of what the lock protects but what its type says.
#[verifier::external_body]
pub(crate) fn lock_read<T>(lock: &RwLock<T>) -> ReadGuard<'_, T> {
    ReadGuard { guard: lock.read() }
}

/// `RwLockWriteGuard::deref_mut`: what the lock protects. The call does not
/// unwind: it hands out the address of what the lock protects and does
/// nothing else.
#[verifier::external_body]
pub(crate) fn target_mut<'a, 'b, T>(guard: &'a mut WriteGuard<'b, T>) -> &'a mut T
    opens_invariants none
    no_unwind
{
    &mut *guard.guard
}

/// `RwLockReadGuard::deref`: what the lock protects.
#[verifier::external_body]
pub(crate) fn target<'a, 'b, T>(guard: &'a ReadGuard<'b, T>) -> &'a T {
    &*guard.guard
}

/// `RwLockReadGuard::try_map`: the guard narrowed to the part that `part`
/// picks, or `None`, and the lock released, where it picks none. `part` is
/// called on what the lock protects, of which nothing is known, so it must
/// accept everything.
#[verifier::external_body]
pub(crate) fn try_map_read<'a, T, U, F>(guard: ReadGuard<'a, T>, part: F) -> Option<
    MappedReadGuard<'a, U>,
> where F: FnOnce(&T) -> Option<&U>
    requires
        forall|protected: &T| part.requires((protected,)),
{
    match RwLockReadGuard::try_map(guard.guard, part) {
        Ok(guard) => Some(MappedReadGuard { guard }),
        Err(_) => None,
    }
}

/// `RwLockWriteGuard::try_map`: the guard narrowed to the part that `part`
/// picks, or `None`, and the lock released, where it picks none. `part` is
/// called on what the lock protects, of which nothing is known, so it must
/// accept everything.
#[verifier::external_body]
pub(crate) fn try_map_write<'a, T, U, F>(guard: WriteGuard<'a, T>, part: F) -> Option<
    MappedWriteGuard<'a, U>,
> where F: FnOnce(&mut T) -> Option<&mut U>
    requires
        forall|protected: &mut T| part.requires((protected,)),
{
    match RwLockWriteGuard::try_map(guard.guard, part) {
        Ok(guard) => Some(MappedWriteGuard { guard }),
        Err(_) => None,
    }
}

/// `CachePadded::new`: `value`, padded to the length of a cache line.
#[verifier::external_body]
pub(crate) fn pad<T>(value: T) -> CachePadded<T> {
    CachePadded::new(value)
}

/// `CachePadded::deref`: the padded value.
#[verifier::external_body]
pub(crate) fn padded<T>(value: &CachePadded<T>) -> &T {
    &**value
}

} // verus!
