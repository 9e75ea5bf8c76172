//! What calls on a userfaultfd come back with, and what that means.

use crate::userfaultfd::{
    UffdMsg, UFFD_EVENT_PAGEFAULT, UFFD_MSG_SIZE, UFFD_PAGEFAULT_FLAG_WP,
};
use vstd::prelude::*;

verus! {

/// Error number of a page that is already there.
pub const EEXIST: i32 = 17;

/// Error number of a request to be made again.
pub const EAGAIN: i32 = 11;

/// `libc::EEXIST`, the error number of a page that is already there. Believed of it: it is 17, as
/// in the libc crate's definitions for Linux, the system that has userfaultfd.
#[verifier::external_body]
fn libc_eexist() -> (errno: i32)
    ensures
        errno == EEXIST,
{
    libc::EEXIST
}

/// `libc::EAGAIN`, the error number of a request to be made again. Believed of it: it is 11, as
/// in the libc crate's definitions for Linux, the system that has userfaultfd.
#[verifier::external_body]
fn libc_eagain() -> (errno: i32)
    ensures
        errno == EAGAIN,
{
    libc::EAGAIN
}

/// How a call came back.
#[derive(Debug, Clone, Copy, PartialEq, Eq)]
pub enum CallReply {
    /// It was done.
    Done,
    /// It failed, with the system's error number where the error has one. An installation that
    /// stopped part-way put `copied` bytes in place before it did; of any other call, `copied`
    /// is 0.
    Failed { errno: Option<i32>, copied: u64 },
}

/// What a reply means to an installation.
#[derive(Debug, Clone, Copy, PartialEq, Eq, Structural)]
pub enum Verdict {
    /// It was done.
    Done,
    /// The page is there already: another fault had it installed meanwhile.
    Present,
    /// The kernel is busy, or stopped part-way; worth another try.
    Busy,
    /// It failed.
    Failed,
}

impl CallReply {
    /// What the reply means.
    pub open spec fn means(self) -> Verdict {
        match self {
            CallReply::Done => Verdict::Done,
            CallReply::Failed { errno, .. } => if errno == Some(EEXIST) {
                Verdict::Present
            } else if errno == Some(EAGAIN) {
                Verdict::Busy
            } else {
                Verdict::Failed
            },
        }
    }

    /// What the reply means.
    pub fn verdict(&self) -> (verdict: Verdict)
        ensures
            verdict == self.means(),
    {
        match self {
            CallReply::Done => Verdict::Done,
            CallReply::Failed { errno: None, .. } => Verdict::Failed,
            CallReply::Failed { errno: Some(errno), .. } => if *errno == libc_eexist() {
                Verdict::Present
            } else if *errno == libc_eagain() {
                Verdict::Busy
            } else {
                Verdict::Failed
            },
        }
    }
}

/// What reading a message gave.
#[derive(Debug, Clone, Copy, PartialEq, Eq)]
pub enum MessageRead {
    /// The read failed, with the system's error number where the error has one.
    Failed { errno: Option<i32> },
    /// `len` bytes were read; `msg` is what they hold when they are a whole message.
    Read { len: usize, msg: UffdMsg },
}

/// The read failed for another reason than that no message was pending.
#[derive(Debug, Clone, Copy, PartialEq, Eq)]
pub struct ReadFailed;

impl MessageRead {
    /// The write-protect fault that was read: none when the queue is drained, and none when what
    /// was read is short, reports no page fault or reports a fault of another kind.
    pub open spec fn pending_fault(self) -> Result<Option<u64>, ReadFailed> {
        match self {
            MessageRead::Failed { errno } => if errno == Some(EAGAIN) {
                Ok(None)
            } else {
                Err(ReadFailed)
            },
            MessageRead::Read { len, msg } => if len >= UFFD_MSG_SIZE && msg.event
                == UFFD_EVENT_PAGEFAULT && msg.pf_flags & UFFD_PAGEFAULT_FLAG_WP != 0 {
                Ok(Some(msg.pf_address))
            } else {
                Ok(None)
            },
        }
    }

    /// The address of the write-protect fault that was read, or `None` when there was none.
    pub fn fault(&self) -> (fault: Result<Option<u64>, ReadFailed>)
        ensures
            fault == self.pending_fault(),
    {
        match self {
            MessageRead::Failed { errno: None } => Err(ReadFailed),
            MessageRead::Failed { errno: Some(errno) } => if *errno == libc_eagain() {
                Ok(None)
            } else {
                Err(ReadFailed)
            },
            MessageRead::Read { len, msg } => {
                if *len < UFFD_MSG_SIZE {
                    return Ok(None);
                }
                if msg.event != UFFD_EVENT_PAGEFAULT {
                    return Ok(None);
                }
                if msg.pf_flags & UFFD_PAGEFAULT_FLAG_WP == 0 {
                    return Ok(None);
                }
                Ok(Some(msg.pf_address))
            },
        }
    }
}


/// A reply goes by its error number alone: a call that was done is done, number 17 says that the
/// page is there, number 11 that the kernel is busy, and any other error is a failure. How many
/// bytes were copied does not matter to that.
pub proof fn law_reply_goes_by_its_error_number(reply: CallReply)
    ensures
        reply.means() is Done <==> reply is Done,
        reply matches CallReply::Failed { errno, .. } ==> {
            &&& reply.means() is Present <==> errno == Some(17i32)
            &&& reply.means() is Busy <==> errno == Some(11i32)
            &&& reply.means() is Failed <==> errno != Some(17i32) && errno != Some(11i32)
        },
{
}

/// A whole message of a page fault is a write-protect fault at its address exactly when the
/// write-protect bit of its flags is set, whatever its other flags are.
pub proof fn law_write_protect_bit_makes_the_fault(len: usize, flags: u64, pf_address: u64)
    requires
        len >= 32,
    ensures
        (MessageRead::Read {
            len,
            msg: UffdMsg { event: 0x12, pf_flags: flags | 2, pf_address },
        }).pending_fault() == Ok::<Option<u64>, ReadFailed>(Some(pf_address)),
        (MessageRead::Read {
            len,
            msg: UffdMsg { event: 0x12, pf_flags: flags & !2, pf_address },
        }).pending_fault() == Ok::<Option<u64>, ReadFailed>(None),
{
    assert((flags | 2) & 2 != 0) by (bit_vector);
    assert((flags & !2) & 2 == 0) by (bit_vector);
}

/// What is short of a message and what reports another event is no fault, whatever else it holds.
pub proof fn law_other_messages_are_no_fault(len: usize, msg: UffdMsg)
    requires
        len < 32 || msg.event != 0x12,
    ensures
        (MessageRead::Read { len, msg }).pending_fault() == Ok::<Option<u64>, ReadFailed>(None),
{
}

/// A read that failed found the queue drained when its error number is 11, and is an error
/// otherwise.
pub proof fn law_failed_read_is_drained_or_an_error(errno: Option<i32>)
    ensures
        (MessageRead::Failed { errno }).pending_fault() == (if errno == Some(11i32) {
            Ok::<Option<u64>, ReadFailed>(None)
        } else {
            Err(ReadFailed)
        }),
{
}

} // verus!
