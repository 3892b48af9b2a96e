//! The receiving side of a transfer: how many bytes to ask the connection
//! for next, and when the file is complete.
use vstd::prelude::*;

verus! {

/// The most bytes read from the connection at once.
pub const CHUNK_SIZE: u64 = 8192;

/// Why receiving a file stopped early.
#[derive(Debug, Clone, Copy, PartialEq, Eq, Structural)]
pub enum ReceiveError {
    /// The sender closed the connection before every byte arrived.
    ConnectionClosed,
}

impl ReceiveError {
    /// The message the daemon reports and sends back for this error.
    pub fn message(&self) -> (r: &'static str)
        ensures
            r@ == "Connection closed prematurely"@,
    {
        "Connection closed prematurely"
    }
}

/// How far the receiving of a file of `total` bytes has come.
pub struct ReceiveProgress {
    received: u64,
    total: u64,
}

impl ReceiveProgress {
    #[verifier::type_invariant]
    spec fn inv(self) -> bool {
        self.received <= self.total
    }

    /// The number of bytes written so far.
    pub closed spec fn received_spec(self) -> u64 {
        self.received
    }

    /// The size of the file being received.
    pub closed spec fn total_spec(self) -> u64 {
        self.total
    }

    /// How many bytes the next read may take: a chunk, or what is left.
    pub open spec fn next_len_spec(self) -> int {
        let left = self.total_spec() - self.received_spec();
        if left < CHUNK_SIZE {
            left
        } else {
            CHUNK_SIZE as int
        }
    }

    /// Starts receiving a file of `total` bytes.
    pub fn new(total: u64) -> (r: Self)
        ensures
            r.received_spec() == 0,
            r.total_spec() == total,
    {
        ReceiveProgress { received: 0, total }
    }

    /// Bytes written so far.
    pub fn received(&self) -> (r: u64)
        ensures
            r == self.received_spec(),
            r <= self.total_spec(),
    {
        proof {
            use_type_invariant(self);
        }
        self.received
    }

    /// Whether every byte has arrived.
    pub fn is_complete(&self) -> (r: bool)
        ensures
            r == (self.received_spec() == self.total_spec()),
    {
        proof {
            use_type_invariant(self);
        }
        self.received >= self.total
    }

    /// How many bytes to read next.
    pub fn next_read_len(&self) -> (r: usize)
        requires
            self.received_spec() < self.total_spec(),
        ensures
            r == self.next_len_spec(),
            0 < r <= CHUNK_SIZE,
    {
        proof {
            use_type_invariant(self);
        }
        let left = self.total - self.received;
        if left < CHUNK_SIZE {
            left as usize
        } else {
            CHUNK_SIZE as usize
        }
    }

    /// Records a read of `n` bytes: a read of nothing means the sender has
    /// gone, any other read adds to what was received.
    pub fn record_read(&mut self, n: usize) -> (r: Result<(), ReceiveError>)
        requires
            old(self).received_spec() < old(self).total_spec(),
            n <= old(self).next_len_spec(),
        ensures
            n == 0 ==> r == Err::<(), ReceiveError>(ReceiveError::ConnectionClosed) && final(self).received_spec() == old(self).received_spec(),
            n > 0 ==> r is Ok && final(self).received_spec() == old(self).received_spec() + n,
            final(self).total_spec() == old(self).total_spec(),
    {
        if n == 0 {
            return Err(ReceiveError::ConnectionClosed);
        }
        self.received = self.received + n as u64;
        Ok(())
    }
}

/// Every read that the receiving loop accepts brings it strictly closer to
/// the end and never past it: the file ends after exactly its size in bytes.
pub proof fn law_receive_stays_within_size(p: ReceiveProgress, n: int)
    requires
        p.received_spec() < p.total_spec(),
        0 < n <= p.next_len_spec(),
    ensures
        p.received_spec() < p.received_spec() + n <= p.total_spec(),
        p.total_spec() - (p.received_spec() + n) < p.total_spec() - p.received_spec(),
{
}

} // verus!
