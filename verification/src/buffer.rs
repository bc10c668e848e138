//! The reference-counted byte buffers underneath the views.
//!
//! A buffer owns an immutable byte sequence. Handles to one buffer are cheap
//! to duplicate — only a reference count moves — and the storage can be
//! taken back without a copy once a handle is the last one left. Two
//! interchangeable policies implement this contract: [`RcBytes`] counts
//! without atomics and stays on one thread, [`ArcBytes`] counts atomically
//! and may cross threads.

use std::rc::Rc;
use std::sync::Arc;
use vstd::prelude::*;

verus! {

/// Relies on `std::sync::Arc::try_unwrap`: the inner value is returned
/// exactly when this handle was the last one, and the untouched handle is
/// returned otherwise.
#[verifier::external_body]
fn arc_try_unwrap(a: Arc<Vec<u8>>) -> (r: Result<Vec<u8>, Arc<Vec<u8>>>)
    ensures
        match r {
            Ok(t) => t == a,
            Err(e) => e == a,
        },
{
    Arc::try_unwrap(a)
}

/// A handle to an immutable, shared byte sequence.
///
/// Duplicating a handle with [`share`](Self::share) never copies the bytes;
/// [`try_unshare`](Self::try_unshare) hands the storage back without a copy
/// when no other handle is left. Whether handles may cross threads is the
/// implementing policy's choice.
pub trait SharedBytes: Sized {
    /// The byte sequence this handle shares.
    spec fn bytes(&self) -> Seq<u8>;

    /// Wraps an owned byte sequence into a fresh buffer with a single
    /// handle.
    fn from_vec(v: Vec<u8>) -> (r: Self)
        ensures
            r.bytes() == v@,
    ;

    /// Returns a further handle to the same buffer without copying.
    fn share(&self) -> (r: Self)
        ensures
            r.bytes() == self.bytes(),
    ;

    /// The length of the shared byte sequence.
    fn len(&self) -> (n: usize)
        ensures
            n == self.bytes().len(),
    ;

    /// Borrows the shared bytes.
    fn as_slice(&self) -> (s: &[u8])
        ensures
            s@ == self.bytes(),
    ;

    /// Takes the byte storage out of the buffer when this handle is the
    /// sole one left; otherwise returns the handle unchanged, and the
    /// caller has to copy.
    fn try_unshare(self) -> (r: Result<Vec<u8>, Self>)
        ensures
            match r {
                Ok(v) => v@ == self.bytes(),
                Err(b) => b.bytes() == self.bytes(),
            },
    ;
}

/// The single-thread sharing policy: handles are counted without atomics
/// and may not leave their thread.
#[derive(Debug)]
pub struct RcBytes {
    handle: Rc<Vec<u8>>,
}

impl SharedBytes for RcBytes {
    closed spec fn bytes(&self) -> Seq<u8> {
        self.handle@
    }

    fn from_vec(v: Vec<u8>) -> (r: Self) {
        RcBytes { handle: Rc::new(v) }
    }

    fn share(&self) -> (r: Self) {
        RcBytes { handle: self.handle.clone() }
    }

    fn len(&self) -> (n: usize) {
        (*self.handle).len()
    }

    fn as_slice(&self) -> (s: &[u8]) {
        (*self.handle).as_slice()
    }

    fn try_unshare(self) -> (r: Result<Vec<u8>, Self>) {
        match Rc::try_unwrap(self.handle) {
            Ok(v) => Ok(v),
            Err(handle) => Err(RcBytes { handle }),
        }
    }
}

/// The thread-safe sharing policy: handles are counted atomically and may
/// cross threads.
#[derive(Debug)]
pub struct ArcBytes {
    handle: Arc<Vec<u8>>,
}

impl SharedBytes for ArcBytes {
    closed spec fn bytes(&self) -> Seq<u8> {
        self.handle@
    }

    fn from_vec(v: Vec<u8>) -> (r: Self) {
        ArcBytes { handle: Arc::new(v) }
    }

    fn share(&self) -> (r: Self) {
        ArcBytes { handle: self.handle.clone() }
    }

    fn len(&self) -> (n: usize) {
        (*self.handle).len()
    }

    fn as_slice(&self) -> (s: &[u8]) {
        (*self.handle).as_slice()
    }

    fn try_unshare(self) -> (r: Result<Vec<u8>, Self>) {
        match arc_try_unwrap(self.handle) {
            Ok(v) => Ok(v),
            Err(handle) => Err(ArcBytes { handle }),
        }
    }
}

} // verus!
