//! A pool of equally sized scratch buffers shared between workers.

use vstd::prelude::*;

verus! {

#[verifier::external_type_specification]
#[verifier::external_body]
#[verifier::reject_recursive_types(T)]
pub struct ExSender<T>(crossbeam_channel::Sender<T>);

#[verifier::external_type_specification]
#[verifier::external_body]
#[verifier::reject_recursive_types(T)]
pub struct ExReceiver<T>(crossbeam_channel::Receiver<T>);

/// Relies on crossbeam_channel::bounded: a queue holding at most `cap`
/// buffers. It panics only when `cap` slots (32 bytes each here) cannot be
/// laid out, which the bound rules out.
#[verifier::external_body]
fn buffer_queue(cap: usize) -> (crossbeam_channel::Sender<Vec<u8>>, crossbeam_channel::Receiver<Vec<u8>>)
    requires
        cap <= usize::MAX / 128,
{
    crossbeam_channel::bounded(cap)
}

/// Relies on crossbeam_channel::Sender::try_send: enqueues the buffer if
/// there is room, drops it otherwise; never blocks.
#[verifier::external_body]
fn offer_buffer(queue: &crossbeam_channel::Sender<Vec<u8>>, buffer: Vec<u8>) {
    let _ = queue.try_send(buffer);
}

/// Relies on crossbeam_channel::Receiver::try_recv: some queued buffer, or
/// `None` when the queue is empty; never blocks.
#[verifier::external_body]
fn take_buffer(queue: &crossbeam_channel::Receiver<Vec<u8>>) -> Option<Vec<u8>> {
    queue.try_recv().ok()
}

/// Scratch buffers of one size, reused across callers. Taking from an empty
/// pool allocates; returning to a full pool drops the buffer.
pub struct MemoryPool {
    buffers: crossbeam_channel::Receiver<Vec<u8>>,
    buffer_sender: crossbeam_channel::Sender<Vec<u8>>,
    buffer_size: usize,
}

impl MemoryPool {
    /// Size of the pool's buffers.
    pub closed spec fn size(&self) -> nat {
        self.buffer_size as nat
    }

    /// A pool of up to `pool_size` zero-filled buffers of `buffer_size` bytes,
    /// all allocated up front.
    pub fn new(buffer_size: usize, pool_size: usize) -> (r: Self)
        requires
            pool_size <= usize::MAX / 128,
        ensures
            r.size() == buffer_size,
    {
        let (sender, receiver) = buffer_queue(pool_size);
        let mut i: usize = 0;
        while i < pool_size
            invariant
                i <= pool_size,
            decreases pool_size - i,
        {
            offer_buffer(&sender, vec![0u8; buffer_size]);
            i = i + 1;
        }
        MemoryPool { buffers: receiver, buffer_sender: sender, buffer_size }
    }

    /// A zero-filled buffer of the pool's size: a pooled one if any is
    /// available, else a fresh allocation.
    pub fn get_buffer(&self) -> (r: Vec<u8>)
        ensures
            r@ == Seq::new(self.size(), |i: int| 0u8),
    {
        match take_buffer(&self.buffers) {
            Some(mut buffer) => {
                if buffer.len() != self.buffer_size {
                    return vec![0u8; self.buffer_size];
                }
                let n = buffer.len();
                let mut i: usize = 0;
                while i < n
                    invariant
                        n == buffer@.len(),
                        i <= n,
                        forall|j: int| 0 <= j < i ==> buffer@[j] == 0u8,
                    decreases n - i,
                {
                    buffer.set(i, 0);
                    i = i + 1;
                }
                assert(buffer@ =~= Seq::new(self.size(), |i: int| 0u8));
                buffer
            },
            None => {
                let r = vec![0u8; self.buffer_size];
                assert(r@ =~= Seq::new(self.size(), |i: int| 0u8));
                r
            },
        }
    }

    /// Gives a buffer back to the pool. Only buffers of the pool's size are
    /// kept; others are dropped. Reports whether the buffer was offered.
    pub fn return_buffer(&self, buffer: Vec<u8>) -> (r: bool)
        ensures
            r == (buffer@.len() == self.size()),
    {
        if buffer.len() == self.buffer_size {
            offer_buffer(&self.buffer_sender, buffer);
            true
        } else {
            false
        }
    }
}

} // verus!
