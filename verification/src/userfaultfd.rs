//! The kernel's userfaultfd interface: its constants and the layout of its requests.

use vstd::prelude::*;

verus! {

/// Version of the interface that the handshake asks for.
pub const UFFD_API: u64 = 0xAA;

/// Create a userfaultfd from `/dev/userfaultfd`.
pub const USERFAULTFD_IOC_NEW: u64 = 0xAA00;

/// Handshake.
pub const UFFDIO_API: u64 = 0xC018AA3F;

/// Register a range.
pub const UFFDIO_REGISTER: u64 = 0xC020AA00;

/// Wake the threads that wait on a range.
pub const UFFDIO_WAKE: u64 = 0x8010AA02;

/// Install pages.
pub const UFFDIO_COPY: u64 = 0xC028AA03;

/// Arm or release write protection.
pub const UFFDIO_WRITEPROTECT: u64 = 0xC018AA06;

/// Missing pages fault.
pub const UFFDIO_REGISTER_MODE_MISSING: u64 = 1;

/// Writes to protected pages fault.
pub const UFFDIO_REGISTER_MODE_WP: u64 = 2;

/// Arm write protection; without it, release it.
pub const UFFDIO_WRITEPROTECT_MODE_WP: u64 = 1;

/// Leave the waiting threads asleep.
pub const UFFDIO_WRITEPROTECT_MODE_DONTWAKE: u64 = 2;

/// Write-protect faults carry a flag of their own.
pub const UFFD_FEATURE_PAGEFAULT_FLAG_WP: u64 = 1;

/// The message reports a page fault.
pub const UFFD_EVENT_PAGEFAULT: u8 = 0x12;

/// The fault is a write to a protected page.
pub const UFFD_PAGEFAULT_FLAG_WP: u64 = 2;

/// Size in bytes of a message that the kernel reports an event with.
pub const UFFD_MSG_SIZE: usize = 32;

/// Argument of the handshake.
#[derive(Debug, Clone, Copy, PartialEq, Eq)]
pub struct UffdioApi {
    pub api: u64,
    pub features: u64,
    pub ioctls: u64,
}

/// Argument of a registration.
#[derive(Debug, Clone, Copy, PartialEq, Eq)]
pub struct UffdioRegister {
    pub range_start: u64,
    pub range_len: u64,
    pub mode: u64,
    pub ioctls: u64,
}

/// Argument of an installation.
#[derive(Debug, Clone, Copy, PartialEq, Eq)]
pub struct UffdioCopy {
    pub dst: u64,
    pub src: u64,
    pub len: u64,
    pub mode: u64,
    pub copy: i64,
}

/// A range of addresses, and the argument of a wake-up.
#[derive(Debug, Clone, Copy, PartialEq, Eq)]
pub struct UffdioRange {
    pub start: u64,
    pub len: u64,
}

/// Argument of arming or releasing write protection.
#[derive(Debug, Clone, Copy, PartialEq, Eq)]
pub struct UffdioWriteprotect {
    pub range: UffdioRange,
    pub mode: u64,
}

/// What a message says of a page fault.
#[derive(Debug, Clone, Copy, PartialEq, Eq)]
pub struct UffdMsg {
    pub event: u8,
    pub pf_flags: u64,
    pub pf_address: u64,
}

impl UffdioApi {
    /// The handshake that asks for `required_features`.
    pub fn new(required_features: u64) -> (request: UffdioApi)
        ensures
            request == (UffdioApi { api: UFFD_API, features: required_features, ioctls: 0 }),
    {
        UffdioApi { api: UFFD_API, features: required_features, ioctls: 0 }
    }
}

impl UffdioRegister {
    /// Registers `len` bytes at `addr` for fault handling in `mode`.
    pub fn new(addr: u64, len: u64, mode: u64) -> (request: UffdioRegister)
        ensures
            request == (UffdioRegister { range_start: addr, range_len: len, mode, ioctls: 0 }),
    {
        UffdioRegister { range_start: addr, range_len: len, mode, ioctls: 0 }
    }
}

impl UffdioCopy {
    /// Installs the `len` bytes at `src` at `dst`, waking the threads that wait for them.
    pub fn new(dst: u64, src: u64, len: u64) -> (request: UffdioCopy)
        ensures
            request == (UffdioCopy { dst, src, len, mode: 0, copy: 0 }),
    {
        UffdioCopy { dst, src, len, mode: 0, copy: 0 }
    }

    /// Number of bytes that the kernel put in place, which it leaves in `copy`; a negative value
    /// there is an error number.
    pub fn copied(&self) -> (bytes: u64)
        ensures
            bytes == (if self.copy < 0 {
                0int
            } else {
                self.copy as int
            }),
    {
        if self.copy < 0 {
            0
        } else {
            self.copy as u64
        }
    }
}

impl UffdioRange {
    /// The `len` bytes at `addr`.
    pub fn new(addr: u64, len: u64) -> (request: UffdioRange)
        ensures
            request == (UffdioRange { start: addr, len }),
    {
        UffdioRange { start: addr, len }
    }
}

/// The mode that arms (`protect`) or releases write protection, and leaves the threads that wait
/// asleep when `dont_wake` is set.
pub open spec fn write_protect_mode(protect: bool, dont_wake: bool) -> u64 {
    match (protect, dont_wake) {
        (false, false) => 0,
        (true, false) => UFFDIO_WRITEPROTECT_MODE_WP,
        (false, true) => UFFDIO_WRITEPROTECT_MODE_DONTWAKE,
        (true, true) => UFFDIO_WRITEPROTECT_MODE_WP | UFFDIO_WRITEPROTECT_MODE_DONTWAKE,
    }
}

impl UffdioWriteprotect {
    /// Arms or releases write protection on `len` bytes at `addr`.
    pub fn new(addr: u64, len: u64, protect: bool, dont_wake: bool) -> (request: UffdioWriteprotect)
        ensures
            request.range == (UffdioRange { start: addr, len }),
            request.mode == write_protect_mode(protect, dont_wake),
            request.mode & UFFDIO_WRITEPROTECT_MODE_WP != 0 <==> protect,
            request.mode & UFFDIO_WRITEPROTECT_MODE_DONTWAKE != 0 <==> dont_wake,
    {
        let mut mode: u64 = 0;
        if protect {
            mode = mode | UFFDIO_WRITEPROTECT_MODE_WP;
        }
        if dont_wake {
            mode = mode | UFFDIO_WRITEPROTECT_MODE_DONTWAKE;
        }
        proof {
            assert(0u64 | 1 == 1) by (bit_vector);
            assert(0u64 | 2 == 2) by (bit_vector);
            assert(0u64 & 1 == 0 && 0u64 & 2 == 0) by (bit_vector);
            assert(1u64 & 1 == 1 && 1u64 & 2 == 0) by (bit_vector);
            assert(2u64 & 1 == 0 && 2u64 & 2 == 2) by (bit_vector);
            assert((1u64 | 2) & 1 == 1 && (1u64 | 2) & 2 == 2) by (bit_vector);
        }
        UffdioWriteprotect { range: UffdioRange { start: addr, len }, mode }
    }
}

/// A system call that returned `ret` did what it was asked for.
pub fn call_succeeded(ret: i64) -> (ok: bool)
    ensures
        ok == (ret >= 0),
{
    ret >= 0
}

/// What creating a userfaultfd does next.
#[derive(Debug, Clone, Copy, PartialEq, Eq, Structural)]
pub enum CreateStep {
    /// Open `/dev/userfaultfd`.
    OpenDevice,
    /// Create a descriptor from the open device.
    NewFromDevice,
    /// Create a descriptor by the system call.
    Syscall,
    /// Shake hands on the descriptor.
    Handshake,
    /// Return the descriptor.
    Ready,
    /// Return the error of the last call.
    Failed,
}

impl CreateStep {
    /// The step after one that succeeded (`ok`) or failed. The device is preferred, as it asks
    /// for no more than file permissions; the system call stands in for it.
    pub open spec fn after(self, ok: bool) -> CreateStep {
        match self {
            CreateStep::OpenDevice => if ok {
                CreateStep::NewFromDevice
            } else {
                CreateStep::Syscall
            },
            CreateStep::NewFromDevice => if ok {
                CreateStep::Handshake
            } else {
                CreateStep::Syscall
            },
            CreateStep::Syscall => if ok {
                CreateStep::Handshake
            } else {
                CreateStep::Failed
            },
            CreateStep::Handshake => if ok {
                CreateStep::Ready
            } else {
                CreateStep::Failed
            },
            CreateStep::Ready => CreateStep::Ready,
            CreateStep::Failed => CreateStep::Failed,
        }
    }

    /// The step that creation begins with.
    pub fn first() -> (step: CreateStep)
        ensures
            step == CreateStep::OpenDevice,
    {
        CreateStep::OpenDevice
    }

    /// The step after one that succeeded (`ok`) or failed.
    pub fn next(self, ok: bool) -> (step: CreateStep)
        ensures
            step == self.after(ok),
    {
        match (self, ok) {
            (CreateStep::OpenDevice, true) => CreateStep::NewFromDevice,
            (CreateStep::OpenDevice, false) => CreateStep::Syscall,
            (CreateStep::NewFromDevice, true) => CreateStep::Handshake,
            (CreateStep::NewFromDevice, false) => CreateStep::Syscall,
            (CreateStep::Syscall, true) => CreateStep::Handshake,
            (CreateStep::Handshake, true) => CreateStep::Ready,
            (CreateStep::Ready, _) => CreateStep::Ready,
            _ => CreateStep::Failed,
        }
    }
}

/// How creation goes, given what each call would come to: `opened` and `made` on the device,
/// `called` for the system call and `shaken` for the handshake.
pub open spec fn creation(opened: bool, made: bool, called: bool, shaken: bool) -> CreateStep {
    let device = CreateStep::OpenDevice.after(opened);
    let device = if device is NewFromDevice {
        device.after(made)
    } else {
        device
    };
    let descriptor = if device is Syscall {
        device.after(called)
    } else {
        device
    };
    if descriptor is Handshake {
        descriptor.after(shaken)
    } else {
        descriptor
    }
}

/// Creation succeeds when the handshake does on a descriptor of the device or, where the device
/// gives none, of the system call; otherwise it fails.
pub proof fn law_creation_falls_back(opened: bool, made: bool, called: bool, shaken: bool)
    ensures
        creation(opened, made, called, shaken) == if ((opened && made) || called) && shaken {
            CreateStep::Ready
        } else {
            CreateStep::Failed
        },
        CreateStep::OpenDevice.after(opened) is Syscall <==> !opened,
        CreateStep::NewFromDevice.after(made) is Syscall <==> !made,
{
}


/// Every step of creation leads on: one that succeeded to the next, and one that failed to the
/// system call while the device was tried, and otherwise to failure. Creation that ended stays
/// ended.
pub proof fn law_creation_leads_on(ok: bool)
    ensures
        CreateStep::OpenDevice.after(true) is NewFromDevice,
        CreateStep::NewFromDevice.after(true) is Handshake,
        CreateStep::Syscall.after(true) is Handshake,
        CreateStep::Handshake.after(true) is Ready,
        CreateStep::OpenDevice.after(false) is Syscall,
        CreateStep::NewFromDevice.after(false) is Syscall,
        CreateStep::Syscall.after(false) is Failed,
        CreateStep::Handshake.after(false) is Failed,
        CreateStep::Ready.after(ok) is Ready,
        CreateStep::Failed.after(ok) is Failed,
{
}

/// The mode of a write-protect request is the sum of its two flags and holds no other bit.
pub proof fn law_write_protect_mode_is_its_flags(protect: bool, dont_wake: bool)
    ensures
        write_protect_mode(protect, dont_wake) == (if protect {
            1int
        } else {
            0
        }) + (if dont_wake {
            2int
        } else {
            0
        }),
{
    assert(1u64 | 2 == 3) by (bit_vector);
}

/// The number of a kernel request: its direction (1 to write, 2 to read) in the top two bits, the
/// size of its argument at eight bytes a field, the interface's letter and its own number.
pub open spec fn request_number(direction: int, fields: int, number: int) -> int {
    direction * 0x4000_0000 + 8 * fields * 0x1_0000 + 0xAA00 + number
}

/// Every request has the number that the kernel knows it by: that of its argument's fields and of
/// its place in the interface.
pub proof fn law_requests_have_their_numbers()
    ensures
        USERFAULTFD_IOC_NEW == request_number(0, 0, 0x00),
        UFFDIO_API == request_number(3, 3, 0x3F),
        UFFDIO_REGISTER == request_number(3, 4, 0x00),
        UFFDIO_WAKE == request_number(2, 2, 0x02),
        UFFDIO_COPY == request_number(3, 5, 0x03),
        UFFDIO_WRITEPROTECT == request_number(3, 3, 0x06),
{
}

/// The flags and sizes of the interface are the kernel's: demand paging is registered by the
/// lowest bit and write tracking by the one above it, a fault is reported by event 0x12 in a
/// message of 32 bytes, and a write to a protected page by the second flag of the fault.
pub proof fn law_flags_are_those_of_the_kernel()
    ensures
        UFFD_API == 0xAA,
        UFFDIO_REGISTER_MODE_MISSING == 1,
        UFFDIO_REGISTER_MODE_WP == 2,
        UFFDIO_WRITEPROTECT_MODE_WP == 1,
        UFFDIO_WRITEPROTECT_MODE_DONTWAKE == 2,
        UFFD_FEATURE_PAGEFAULT_FLAG_WP == 1,
        UFFD_EVENT_PAGEFAULT == 0x12,
        UFFD_PAGEFAULT_FLAG_WP == 2,
        UFFD_MSG_SIZE == 32,
{
}

} // verus!
