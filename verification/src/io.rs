//! Positional transfers: moving a whole buffer to or from a file offset in
//! as many operations as the operating system needs.
//!
//! An operation of the operating system may move fewer bytes than it was
//! asked for. A transfer keeps asking for what is left, at the offset where
//! the last operation stopped, until the whole buffer has been moved. The
//! functions here say what to ask for next; the caller performs the
//! operation on its file and reports how many bytes it moved.
use vstd::prelude::*;

verus! {

/// One operation to ask of the operating system: move bytes
/// `start .. start + len` of the buffer to or from `offset` of the file.
#[derive(Clone, Copy, Debug, PartialEq, Eq, Structural)]
pub struct Request {
    /// Index of the first byte of the buffer to move.
    pub start: usize,
    /// Number of bytes to move.
    pub len: usize,
    /// File offset of the first byte.
    pub offset: u64,
}

/// Why a transfer cannot be completed.
#[derive(Clone, Copy, Debug, PartialEq, Eq, Structural)]
pub enum TransferError {
    /// An operation moved nothing although bytes were left: the file ended
    /// before the buffer did.
    Short,
    /// An operation reported more bytes than it was asked for.
    Overrun,
}

/// The progress of moving `len` bytes to or from `offset` of a file.
#[derive(Clone, Copy, Debug, PartialEq, Eq, Structural)]
pub struct Transfer {
    /// Number of bytes to move in all.
    pub len: usize,
    /// Number of bytes moved so far.
    pub done: usize,
    /// File offset of the first byte of the buffer.
    pub offset: u64,
}

impl Transfer {
    /// No more has been moved than there is, and every byte has a file
    /// offset.
    pub open spec fn wf(&self) -> bool {
        &&& self.done <= self.len
        &&& self.offset + self.len <= u64::MAX
    }

    /// What is left to ask for, or `None` once everything has been moved.
    pub open spec fn pending(&self) -> Option<Request> {
        if self.done == self.len {
            None
        } else {
            Some(
                Request {
                    start: self.done,
                    len: (self.len - self.done) as usize,
                    offset: (self.offset + self.done) as u64,
                },
            )
        }
    }

    /// A transfer of `len` bytes at `offset`, of which nothing has been
    /// moved yet.
    pub fn new(len: usize, offset: u64) -> (transfer: Transfer)
        requires
            offset + len <= u64::MAX,
        ensures
            transfer == (Transfer { len, done: 0, offset }),
            transfer.wf(),
    {
        Transfer { len, done: 0, offset }
    }

    /// The next operation to perform, or `None` once the transfer is
    /// complete.
    pub fn request(&self) -> (request: Option<Request>)
        requires
            self.wf(),
        ensures
            request == self.pending(),
    {
        if self.done == self.len {
            None
        } else {
            Some(
                Request {
                    start: self.done,
                    len: self.len - self.done,
                    offset: self.offset + self.done as u64,
                },
            )
        }
    }

    /// Takes the number of bytes that the requested operation moved.
    ///
    /// The transfer advances by that number. An operation that moved
    /// nothing, or more than was left, fails the transfer and leaves it as
    /// it was.
    pub fn advance(&mut self, transferred: usize) -> (outcome: Result<(), TransferError>)
        requires
            old(self).wf(),
            old(self).done < old(self).len,
        ensures
            final(self).wf(),
            if transferred == 0 {
                outcome == Err::<(), TransferError>(TransferError::Short) && *final(self) == *old(
                    self,
                )
            } else if transferred > old(self).len - old(self).done {
                outcome == Err::<(), TransferError>(TransferError::Overrun) && *final(self)
                    == *old(self)
            } else {
                outcome == Ok::<(), TransferError>(()) && *final(self) == (Transfer {
                    done: (old(self).done + transferred) as usize,
                    ..*old(self)
                })
            },
    {
        if transferred == 0 {
            Err(TransferError::Short)
        } else if transferred > self.len - self.done {
            Err(TransferError::Overrun)
        } else {
            self.done = self.done + transferred;
            Ok(())
        }
    }
}

} // verus!
