//! A small shared-state convenience for screen authors.
//!
//! [`State`] is a clonable, thread-safe handle around a mutually-excluded
//! cell of a user value. Screens that spawn background tasks can hand a
//! clone to the task and publish mutable data through it. The framework
//! itself never reads or writes through this type.
//!
//! [`State::get`] takes the lock and returns a [`StateHandle`]: a scoped
//! guard with exclusive access to the value until it is dropped. Because
//! every clone of a [`State`] reaches the same cell from any task, the
//! value a handle reads is whatever was last written through any handle:
//! no stronger contract would be true of a shared cell, so none is stated
//! here. Do not hold a handle across a suspension point.

use vstd::prelude::*;

verus! {

#[verifier::external_type_specification]
#[verifier::external_body]
#[verifier::reject_recursive_types(T)]
pub struct ExMutex<T: ?Sized>(std::sync::Mutex<T>);

#[verifier::external_type_specification]
#[verifier::external_body]
#[verifier::reject_recursive_types(T)]
pub struct ExMutexGuard<'a, T: ?Sized + 'a>(std::sync::MutexGuard<'a, T>);

/// A clonable, thread-safe handle around a mutually-excluded cell of a
/// value of type `T`. Every clone reaches the same cell.
#[derive(Clone)]
#[verifier::reject_recursive_types(T)]
pub struct State<T> {
    cell: std::sync::Arc<std::sync::Mutex<T>>,
}

/// A scoped guard with exclusive access to the value a [`State`] holds.
/// The lock is released when the handle is dropped.
#[verifier::reject_recursive_types(T)]
pub struct StateHandle<'a, T> {
    guard: std::sync::MutexGuard<'a, T>,
}

/// Relies on `std::sync::Mutex::new`: it makes a fresh unlocked mutex
/// holding `value`.
#[verifier::external_body]
fn mutex_new<T>(value: T) -> std::sync::Mutex<T> {
    std::sync::Mutex::new(value)
}

/// Relies on `std::sync::Mutex::lock`: it blocks until the lock is held
/// and then grants exclusive access to the cell's value until the guard
/// drops. A poisoned lock -- a panic in another holder -- is treated as
/// fatal.
#[verifier::external_body]
fn lock_cell<'a, T>(cell: &'a std::sync::Arc<std::sync::Mutex<T>>) -> std::sync::MutexGuard<
    'a,
    T,
> {
    cell.lock().expect("the application state mutex was poisoned")
}

impl<T> State<T> {
    /// Make a new shared cell holding `state`.
    pub fn new(state: T) -> State<T> {
        State { cell: std::sync::Arc::new(mutex_new(state)) }
    }

    /// Take the lock and return a handle with exclusive access to the
    /// value. Blocks while another handle on the same cell is alive.
    pub fn get(&self) -> StateHandle<'_, T> {
        StateHandle { guard: lock_cell(&self.cell) }
    }
}

impl<'a, T> StateHandle<'a, T> {
    /// Relies on `std::sync::MutexGuard`'s `Deref`: it reads the value the
    /// cell currently holds, which only this handle can change while it
    /// lives.
    #[verifier::external_body]
    pub fn borrow(&self) -> &T {
        &*self.guard
    }

    /// Relies on `std::sync::MutexGuard`'s `DerefMut`: it replaces the
    /// value the cell holds; reads through any later handle, or through
    /// this one, see `value` until something else is written.
    #[verifier::external_body]
    pub fn set(&mut self, value: T) {
        *self.guard = value;
    }
}

} // verus!
