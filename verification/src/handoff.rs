//! Handing a VM's userfaultfd to an external fault handler.
//!
//! Every message of the protocol is an 8-byte header (its type and the length of its body, each a
//! little-endian 32-bit number) followed by the body, with file descriptors attached to the
//! header bytes. The VMM sends [`Handoff`] at startup and [`Capture`] during a live checkpoint's
//! paused phase, and reads a [`CaptureOutcome`] back. The bodies are serialized by the driver;
//! this module frames them and checks what comes back.

use crate::text::{decimal, push_decimal};
use vstd::prelude::*;
use vstd::slice::slice_subrange;

verus! {

/// Header discriminant of a handoff message.
pub const MSG_HANDOFF: u32 = 1;

/// Header discriminant of a capture message.
pub const MSG_CAPTURE: u32 = 2;

/// Header discriminant of a capture-done message.
pub const MSG_CAPTURE_DONE: u32 = 3;

/// Wire size of the fixed message header.
pub const HEADER_LEN: usize = 8;

/// Upper bound accepted for a capture-done body, defending the
/// length-prefixed read against a corrupt peer.
pub const MAX_DONE_LEN: u32 = 1048576;

/// The fault-handling modes guest RAM was registered with before the
/// handoff.
#[derive(Debug, Clone, Copy, PartialEq, Eq)]
pub enum RegistrationMode {
    /// Missing + write-protect: a demand-paged restore.
    MissingAndWriteProtect,
    /// Write-protect only: a booted (or eagerly restored) VM, registered so
    /// live checkpoints can arm and capture.
    WriteProtectOnly,
}

/// One registered guest-RAM region, described for the peer in both address
/// spaces: this process's (`vmm_addr`, where fault addresses arrive and uffd
/// ioctls act) and the backing memfd's (which the peer maps to read page
/// contents).
#[derive(Debug, Clone, Copy, PartialEq, Eq)]
pub struct HandoffRegion {
    /// Start of the region in this process's address space.
    pub vmm_addr: u64,
    /// Length of the region in bytes.
    pub length: u64,
    /// The region's byte offset in the dense snapshot memory image.
    pub source_offset: u64,
    /// Page size faults arrive and pages are installed at.
    pub page_size: u64,
    /// Index into the handoff's attached memfds of the file backing this
    /// region.
    pub memfd: u32,
    /// Byte offset of the region within that memfd.
    pub memfd_offset: u64,
}

/// The handoff body: the registered guest-RAM layout.
#[derive(Debug, Clone)]
pub struct Handoff {
    pub mode: RegistrationMode,
    pub regions: Vec<HandoffRegion>,
}

/// One write-protect-armed range of a live capture, and where its pages land
/// in the output file.
#[derive(Debug, Clone, Copy, PartialEq, Eq)]
pub struct CaptureRange {
    /// Start of the range in this process's address space.
    pub vmm_addr: u64,
    /// Length of the range in bytes.
    pub length: u64,
    /// Byte offset the range's first page maps to in the output file.
    pub out_offset: u64,
    /// Page size the range is captured and released at.
    pub page_size: u64,
}

/// A live checkpoint's copy-out request.
#[derive(Debug, Clone)]
pub struct Capture {
    pub ranges: Vec<CaptureRange>,
}

/// How a capture ended, reported by the peer.
#[derive(Debug, Clone)]
pub enum CaptureOutcome {
    Success,
    Failure { error: String },
}

impl CaptureOutcome {
    /// The peer's outcome: `Ok` when every armed page was captured, or the
    /// error that aborted the capture.
    pub fn into_result(self) -> (result: Result<(), String>)
        ensures
            result == (match self {
                CaptureOutcome::Success => Ok::<(), String>(()),
                CaptureOutcome::Failure { error } => Err(error),
            }),
    {
        match self {
            CaptureOutcome::Success => Ok(()),
            CaptureOutcome::Failure { error } => Err(error),
        }
    }
}

/// What is wrong with a message.
#[derive(Debug, Clone, Copy, PartialEq, Eq)]
pub enum HandoffError {
    /// The peer sent a message of another type than capture-done.
    UnexpectedMessage { message_type: u32 },
    /// The peer announced a capture-done body over the bound.
    BodyTooLong { body_len: u32 },
    /// The header was not sent whole.
    ShortHeader,
    /// The body to send is longer than the header can say.
    BodyOverflow { body_len: u64 },
}

/// The kind of an error.
#[derive(Debug, Clone, Copy, PartialEq, Eq)]
pub enum HandoffErrorKind {
    /// The peer's data is invalid.
    InvalidData,
    /// A write stopped short.
    WriteZero,
    /// What was to be sent is invalid.
    InvalidInput,
}

impl HandoffError {
    /// The error in words.
    pub open spec fn text(self) -> Seq<char> {
        match self {
            HandoffError::UnexpectedMessage { message_type } => "unexpected message type "@
                + decimal(message_type as int) + " from the fault handler"@,
            HandoffError::BodyTooLong { body_len } => "capture-done body of "@ + decimal(
                body_len as int,
            ) + " bytes exceeds the bound"@,
            HandoffError::ShortHeader => "short header write on the fault-handler connection"@,
            HandoffError::BodyOverflow { body_len } => "message body of "@ + decimal(
                body_len as int,
            ) + " bytes exceeds the length field"@,
        }
    }

    /// The error in words.
    pub fn message(&self) -> (message: String)
        ensures
            message@ == self.text(),
    {
        let mut out = String::new();
        match self {
            HandoffError::UnexpectedMessage { message_type } => {
                out.append("unexpected message type ");
                push_decimal(&mut out, *message_type as u64);
                out.append(" from the fault handler");
            },
            HandoffError::BodyTooLong { body_len } => {
                out.append("capture-done body of ");
                push_decimal(&mut out, *body_len as u64);
                out.append(" bytes exceeds the bound");
            },
            HandoffError::ShortHeader => {
                out.append("short header write on the fault-handler connection");
            },
            HandoffError::BodyOverflow { body_len } => {
                out.append("message body of ");
                push_decimal(&mut out, *body_len);
                out.append(" bytes exceeds the length field");
            },
        }
        assert(out@ =~= self.text());
        out
    }

    /// The kind of the error.
    pub fn kind(&self) -> (kind: HandoffErrorKind)
        ensures
            kind == (match *self {
                HandoffError::UnexpectedMessage { .. } => HandoffErrorKind::InvalidData,
                HandoffError::BodyTooLong { .. } => HandoffErrorKind::InvalidData,
                HandoffError::ShortHeader => HandoffErrorKind::WriteZero,
                HandoffError::BodyOverflow { .. } => HandoffErrorKind::InvalidInput,
            }),
    {
        match self {
            HandoffError::UnexpectedMessage { .. } => HandoffErrorKind::InvalidData,
            HandoffError::BodyTooLong { .. } => HandoffErrorKind::InvalidData,
            HandoffError::ShortHeader => HandoffErrorKind::WriteZero,
            HandoffError::BodyOverflow { .. } => HandoffErrorKind::InvalidInput,
        }
    }
}

// The header.

/// The number that four bytes stand for, the lowest first.
pub open spec fn le_value(bytes: Seq<u8>) -> int {
    bytes[0] + 0x100 * bytes[1] + 0x1_0000 * bytes[2] + 0x100_0000 * bytes[3]
}

/// The four bytes of a number, the lowest first.
pub open spec fn le_bytes(n: int) -> Seq<u8> {
    seq![
        (n % 0x100) as u8,
        (n / 0x100 % 0x100) as u8,
        (n / 0x1_0000 % 0x100) as u8,
        (n / 0x100_0000 % 0x100) as u8,
    ]
}

/// The header of a message of type `message_type` whose body has `body_len` bytes, which the
/// length field can hold.
pub open spec fn header_bytes(message_type: u32, body_len: int) -> Seq<u8> {
    le_bytes(message_type as int) + le_bytes(body_len)
}

/// The type that a header gives.
pub open spec fn header_type(header: Seq<u8>) -> int {
    le_value(header.subrange(0, 4))
}

/// The length of the body that a header gives.
pub open spec fn header_body_len(header: Seq<u8>) -> int {
    le_value(header.subrange(4, 8))
}

/// The four bytes of a number stand for that number.
pub proof fn law_le_round_trip(n: int)
    requires
        0 <= n < 0x1_0000_0000,
    ensures
        le_value(le_bytes(n)) == n,
{
    let b0 = n % 0x100;
    let b1 = n / 0x100 % 0x100;
    let b2 = n / 0x1_0000 % 0x100;
    let b3 = n / 0x100_0000 % 0x100;
    assert(b0 + 0x100 * b1 + 0x1_0000 * b2 + 0x100_0000 * b3 == n);
}

/// Reading a message back gives what was sent: its header the type and the length, and as many
/// bytes after the header the body, for every body whose length the length field can hold.
pub proof fn law_frame_round_trip(message_type: u32, body: Seq<u8>)
    requires
        body.len() < 0x1_0000_0000,
    ensures
        ({
            let frame = header_bytes(message_type, body.len() as int) + body;
            let header = frame.subrange(0, HEADER_LEN as int);
            &&& header_type(header) == message_type
            &&& header_body_len(header) == body.len()
            &&& frame.subrange(HEADER_LEN as int, HEADER_LEN + header_body_len(header)) == body
        }),
{
    let frame = header_bytes(message_type, body.len() as int) + body;
    let header = frame.subrange(0, HEADER_LEN as int);
    assert(header.subrange(0, 4) =~= le_bytes(message_type as int));
    assert(header.subrange(4, 8) =~= le_bytes(body.len() as int));
    law_le_round_trip(message_type as int);
    law_le_round_trip(body.len() as int);
    assert(frame.subrange(HEADER_LEN as int, HEADER_LEN + body.len()) =~= body);
}

/// The header of a message. A body that the length field cannot hold is an error.
pub fn encode_header(message_type: u32, body_len: usize) -> (header: Result<[u8; 8], HandoffError>)
    ensures
        match header {
            Ok(header) => body_len <= u32::MAX && header@ == header_bytes(
                message_type,
                body_len as int,
            ),
            Err(error) => body_len > u32::MAX && error == (HandoffError::BodyOverflow {
                body_len: body_len as u64,
            }),
        },
{
    if body_len as u64 > u32::MAX as u64 {
        return Err(HandoffError::BodyOverflow { body_len: body_len as u64 });
    }
    let len: u32 = body_len as u32;
    let header: [u8; 8] = [
        (message_type % 0x100) as u8,
        (message_type / 0x100 % 0x100) as u8,
        (message_type / 0x1_0000 % 0x100) as u8,
        (message_type / 0x100_0000 % 0x100) as u8,
        (len % 0x100) as u8,
        (len / 0x100 % 0x100) as u8,
        (len / 0x1_0000 % 0x100) as u8,
        (len / 0x100_0000 % 0x100) as u8,
    ];
    assert(header@ =~= header_bytes(message_type, body_len as int));
    Ok(header)
}

/// The number that the four bytes at `at` of a header stand for.
fn decode_le(header: &[u8; 8], at: usize) -> (n: u32)
    requires
        at <= 4,
    ensures
        n == le_value(header@.subrange(at as int, at + 4)),
{
    header[at] as u32 + 0x100 * header[at + 1] as u32 + 0x1_0000 * header[at + 2] as u32
        + 0x100_0000 * header[at + 3] as u32
}

/// What the header of a message read for a capture-done one leads to: the length of the body to
/// read, or the error. The type is looked at before the length.
pub open spec fn done_body(header: Seq<u8>) -> Result<int, HandoffError> {
    if header_type(header) != MSG_CAPTURE_DONE {
        Err(HandoffError::UnexpectedMessage { message_type: header_type(header) as u32 })
    } else if header_body_len(header) > MAX_DONE_LEN {
        Err(HandoffError::BodyTooLong { body_len: header_body_len(header) as u32 })
    } else {
        Ok(header_body_len(header))
    }
}

/// Checks the header of a message read for a capture-done one and returns the length of the body
/// to read.
pub fn done_body_len(header: &[u8; 8]) -> (body_len: Result<usize, HandoffError>)
    ensures
        match body_len {
            Ok(len) => done_body(header@) == Ok::<int, HandoffError>(len as int),
            Err(error) => done_body(header@) == Err::<int, HandoffError>(error),
        },
        body_len matches Ok(len) ==> len <= MAX_DONE_LEN,
{
    let message_type = decode_le(header, 0);
    let body_len = decode_le(header, 4);
    if message_type != MSG_CAPTURE_DONE {
        return Err(HandoffError::UnexpectedMessage { message_type });
    }
    if body_len > MAX_DONE_LEN {
        return Err(HandoffError::BodyTooLong { body_len });
    }
    Ok(body_len as usize)
}

/// A capture-done message within the bound is read with its body; a longer one and one of another
/// type are rejected.
pub proof fn law_done_accepts_what_the_protocol_sends(message_type: u32, body: Seq<u8>)
    requires
        body.len() < 0x1_0000_0000,
    ensures
        ({
            let header = header_bytes(message_type, body.len() as int);
            &&& message_type == MSG_CAPTURE_DONE && body.len() <= MAX_DONE_LEN ==> done_body(header)
                == Ok::<int, HandoffError>(body.len() as int)
            &&& message_type == MSG_CAPTURE_DONE && body.len() > MAX_DONE_LEN ==> done_body(header)
                == Err::<int, HandoffError>(
                HandoffError::BodyTooLong { body_len: body.len() as u32 },
            )
            &&& message_type != MSG_CAPTURE_DONE ==> done_body(header) == Err::<int, HandoffError>(
                HandoffError::UnexpectedMessage { message_type },
            )
        }),
{
    let header = header_bytes(message_type, body.len() as int);
    law_frame_round_trip(message_type, body);
    assert((header + body).subrange(0, HEADER_LEN as int) =~= header);
}

// Sending.

/// A message as it goes out ahead of its body.
#[derive(Debug, Clone)]
pub struct Outgoing {
    /// The header.
    pub header: [u8; 8],
    /// The descriptors attached to the header bytes.
    pub fds: Vec<i32>,
}

/// The handoff of the userfaultfd `uffd` with the serialized layout `body`. `memfds` are the
/// files backing the regions, in the order [`HandoffRegion::memfd`] indexes; they follow the
/// userfaultfd. A body that the header's length field cannot hold is an error.
pub fn handoff_message(body: &[u8], uffd: i32, memfds: &[i32]) -> (message: Result<
    Outgoing,
    HandoffError,
>)
    ensures
        match message {
            Ok(message) => {
                &&& body@.len() <= u32::MAX
                &&& message.header@ == header_bytes(MSG_HANDOFF, body@.len() as int)
                &&& message.fds@ == seq![uffd] + memfds@
            },
            Err(error) => body@.len() > u32::MAX && error == (HandoffError::BodyOverflow {
                body_len: body@.len() as u64,
            }),
        },
{
    let header = match encode_header(MSG_HANDOFF, body.len()) {
        Ok(header) => header,
        Err(error) => return Err(error),
    };
    let mut fds: Vec<i32> = Vec::new();
    fds.push(uffd);
    fds.extend_from_slice(memfds);
    assert(fds@ =~= seq![uffd] + memfds@);
    Ok(Outgoing { header, fds })
}

/// Behind the userfaultfd, the attached descriptors are the memfds that the regions index.
pub proof fn law_regions_find_their_memfds(region: HandoffRegion, uffd: i32, memfds: Seq<i32>)
    requires
        region.memfd < memfds.len(),
    ensures
        (seq![uffd] + memfds)[0] == uffd,
        (seq![uffd] + memfds)[1 + region.memfd] == memfds[region.memfd as int],
{
}

/// A live capture's copy-out request with the serialized ranges `body` and the output file `out`
/// attached. A body that the header's length field cannot hold is an error.
pub fn capture_message(body: &[u8], out: i32) -> (message: Result<Outgoing, HandoffError>)
    ensures
        match message {
            Ok(message) => {
                &&& body@.len() <= u32::MAX
                &&& message.header@ == header_bytes(MSG_CAPTURE, body@.len() as int)
                &&& message.fds@ == seq![out]
            },
            Err(error) => body@.len() > u32::MAX && error == (HandoffError::BodyOverflow {
                body_len: body@.len() as u64,
            }),
        },
{
    let header = match encode_header(MSG_CAPTURE, body.len()) {
        Ok(header) => header,
        Err(error) => return Err(error),
    };
    let mut fds: Vec<i32> = Vec::new();
    fds.push(out);
    assert(fds@ =~= seq![out]);
    Ok(Outgoing { header, fds })
}

/// What is left of `body` after `sent` bytes of header and body went out with the descriptors.
/// They ride the first byte, so what is left is written without them; a header that is not whole
/// is an error.
pub fn rest_of_body(body: &[u8], sent: usize) -> (rest: Result<&[u8], HandoffError>)
    requires
        sent <= HEADER_LEN + body@.len(),
    ensures
        sent < HEADER_LEN ==> rest == Err::<&[u8], HandoffError>(HandoffError::ShortHeader),
        sent >= HEADER_LEN ==> rest is Ok && rest->Ok_0@ == body@.skip(sent - HEADER_LEN),
{
    if sent < HEADER_LEN {
        return Err(HandoffError::ShortHeader);
    }
    let rest = slice_subrange(body, sent - HEADER_LEN, body.len());
    assert(rest@ =~= body@.skip(sent - HEADER_LEN));
    Ok(rest)
}

/// A partial send resumes where it stopped: the bytes that went out first and those that are left
/// are the message, each once.
pub proof fn law_partial_send_resumes(message_type: u32, body: Seq<u8>, sent: int)
    requires
        HEADER_LEN <= sent <= HEADER_LEN + body.len(),
    ensures
        ({
            let frame = header_bytes(message_type, body.len() as int) + body;
            frame.take(sent) + body.skip(sent - HEADER_LEN) == frame
        }),
{
    let frame = header_bytes(message_type, body.len() as int) + body;
    assert(frame.take(sent) + body.skip(sent - HEADER_LEN) =~= frame);
}

/// The messages of the protocol have the types 1, 2 and 3, a header has eight bytes, and a
/// capture-done body at most a mebibyte.
pub proof fn law_protocol_has_its_numbers()
    ensures
        MSG_HANDOFF == 1,
        MSG_CAPTURE == 2,
        MSG_CAPTURE_DONE == 3,
        HEADER_LEN == 8,
        MAX_DONE_LEN == 1024 * 1024,
{
}

/// A header spells out the type in its first four bytes and the length of the body in the other
/// four, in each the lowest byte first.
pub proof fn law_header_spells_type_and_length(message_type: u32, body_len: int)
    requires
        0 <= body_len < 0x1_0000_0000,
    ensures
        ({
            let h = header_bytes(message_type, body_len);
            &&& h.len() == 8
            &&& h[0] + 0x100 * h[1] + 0x1_0000 * h[2] + 0x100_0000 * h[3] == message_type
            &&& h[4] + 0x100 * h[5] + 0x1_0000 * h[6] + 0x100_0000 * h[7] == body_len
        }),
{
    law_le_round_trip(message_type as int);
    law_le_round_trip(body_len);
}

/// What a header read for a capture-done message leads to, whatever its bytes: another type than
/// 3 is an error that names the type, a length over the bound one that names the length, and any
/// other length is that of the body to read.
pub proof fn law_done_goes_by_the_header_bytes(h: Seq<u8>)
    requires
        h.len() == 8,
    ensures
        ({
            let message_type = h[0] + 0x100 * h[1] + 0x1_0000 * h[2] + 0x100_0000 * h[3];
            let body_len = h[4] + 0x100 * h[5] + 0x1_0000 * h[6] + 0x100_0000 * h[7];
            match done_body(h) {
                Ok(len) => message_type == 3 && body_len <= 1024 * 1024 && len == body_len,
                Err(HandoffError::UnexpectedMessage { message_type: named }) => message_type != 3
                    && named == message_type,
                Err(HandoffError::BodyTooLong { body_len: named }) => message_type == 3 && body_len
                    > 1024 * 1024 && named == body_len,
                Err(_) => false,
            }
        }),
{
    assert(h.subrange(0, 4)[0] == h[0] && h.subrange(0, 4)[1] == h[1] && h.subrange(0, 4)[2]
        == h[2] && h.subrange(0, 4)[3] == h[3]);
    assert(h.subrange(4, 8)[0] == h[4] && h.subrange(4, 8)[1] == h[5] && h.subrange(4, 8)[2]
        == h[6] && h.subrange(4, 8)[3] == h[7]);
}

/// An error is told in its own words, with the number that it is about in decimal.
pub proof fn law_errors_name_their_numbers(message_type: u32, len: u32, body_len: u64)
    ensures
        (HandoffError::UnexpectedMessage { message_type }).text() == "unexpected message type "@
            + decimal(message_type as int) + " from the fault handler"@,
        (HandoffError::BodyTooLong { body_len: len }).text() == "capture-done body of "@ + decimal(
            len as int,
        ) + " bytes exceeds the bound"@,
        HandoffError::ShortHeader.text()
            == "short header write on the fault-handler connection"@,
        (HandoffError::BodyOverflow { body_len }).text() == "message body of "@ + decimal(
            body_len as int,
        ) + " bytes exceeds the length field"@,
{
}

} // verus!
