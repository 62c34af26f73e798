//! Byte queues shared with the host behind a `std::sync::Mutex`: the UART
//! RX injection queues the host fills and the TX capture sinks it reads.
//!
//! The host touches these from its own thread, so nothing of their content
//! is a function of this crate's state; each accessor below says so.

use std::collections::VecDeque;
use std::sync::{Arc, Mutex};
use vstd::prelude::*;

verus! {

/// `std::sync::Mutex`, the lock around the queues shared with the host.
#[verifier::external_type_specification]
#[verifier::external_body]
#[verifier::reject_recursive_types(T)]
pub struct ExMutex<T: ?Sized>(std::sync::Mutex<T>);

/// Number of bytes in the shared RX queue (`Mutex::lock`, then the queue's
/// length; zero when the lock is poisoned). The host fills the queue from
/// another thread, so nothing is claimed of the count.
#[verifier::external_body]
pub(crate) fn queue_len(q: &Arc<Mutex<VecDeque<u8>>>) -> usize {
    q.lock().map(|g| g.len()).unwrap_or(0)
}

/// Pop the oldest byte of the shared RX queue (`Mutex::lock`, then
/// `VecDeque::pop_front`; `None` when empty or poisoned). The content is the
/// host's, so nothing is claimed of the result.
#[verifier::external_body]
pub(crate) fn queue_pop(q: &Arc<Mutex<VecDeque<u8>>>) -> Option<u8> {
    match q.lock() {
        Ok(mut g) => g.pop_front(),
        Err(_) => None,
    }
}

/// Append `byte` to the shared capture sink (`Mutex::lock`, then
/// `Vec::push`; dropped when the lock is poisoned). The sink is the host's,
/// so nothing is claimed of it afterwards.
#[verifier::external_body]
pub(crate) fn sink_push(s: &Arc<Mutex<Vec<u8>>>, byte: u8) {
    if let Ok(mut g) = s.lock() {
        g.push(byte);
    }
}

/// A fresh, empty shared queue (`Mutex::new` around `VecDeque::new`).
#[verifier::external_body]
pub(crate) fn new_queue() -> Arc<Mutex<VecDeque<u8>>> {
    Arc::new(Mutex::new(VecDeque::new()))
}

/// Append `bytes` to a shared RX queue (`Mutex::lock`, then
/// `VecDeque::extend`; dropped when the lock is poisoned).
#[verifier::external_body]
pub(crate) fn queue_extend(q: &Arc<Mutex<VecDeque<u8>>>, bytes: &[u8]) {
    if let Ok(mut g) = q.lock() {
        g.extend(bytes.iter().copied());
    }
}

/// `Arc::clone`: another handle to the same shared queue. As documented,
/// the clone points to the same allocation, so it is the same queue.
#[verifier::external_body]
pub(crate) fn share_queue(q: &Arc<Mutex<VecDeque<u8>>>) -> (r: Arc<Mutex<VecDeque<u8>>>)
    ensures
        r == *q,
{
    Arc::clone(q)
}

/// A copy of everything in a shared capture sink (`Mutex::lock`, then
/// `Vec::clone`; empty when the lock is poisoned). The host may append at
/// any time, so nothing is claimed of the copy.
#[verifier::external_body]
pub(crate) fn sink_contents(s: &Arc<Mutex<Vec<u8>>>) -> Vec<u8> {
    s.lock().map(|g| g.clone()).unwrap_or_default()
}

} // verus!
