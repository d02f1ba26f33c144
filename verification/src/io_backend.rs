//! Which I/O interface the kernel offers. Diagnostic only: the engine runs the
//! same either way.

use vstd::prelude::*;

verus! {

/// The I/O interface that was found.
#[derive(Debug, Clone, Copy, PartialEq, Eq, Structural)]
pub enum IoBackend {
    IoUring,
    Epoll,
}

impl IoBackend {
    /// The interface's name.
    pub open spec fn name(self) -> Seq<char> {
        match self {
            IoBackend::IoUring => "io_uring"@,
            IoBackend::Epoll => "epoll"@,
        }
    }

    /// The interface's name.
    pub fn as_str(self) -> (name: &'static str)
        ensures
            name@ == self.name(),
    {
        match self {
            IoBackend::IoUring => "io_uring",
            IoBackend::Epoll => "epoll",
        }
    }
}

/// What a probe found. It is inconclusive where the attempt failed for want of
/// descriptors or memory: that says nothing about the kernel. `error` is the number
/// of the error, where there was one and it had a number.
#[derive(Debug, Clone, Copy, PartialEq, Eq, Structural)]
pub struct Probe {
    pub backend: IoBackend,
    pub inconclusive: bool,
    pub error: Option<i32>,
}

/// `libc::EMFILE`, the error number for a process out of file descriptors: 24 on
/// Linux.
#[verifier::external_body]
fn process_out_of_files() -> (number: i32)
    ensures
        number == 24,
{
    libc::EMFILE
}

/// `libc::ENFILE`, the error number for a system out of file descriptors: 23 on
/// Linux.
#[verifier::external_body]
fn system_out_of_files() -> (number: i32)
    ensures
        number == 23,
{
    libc::ENFILE
}

/// `libc::ENOMEM`, the error number for want of memory: 12 on Linux.
#[verifier::external_body]
fn out_of_memory() -> (number: i32)
    ensures
        number == 12,
{
    libc::ENOMEM
}

/// The error number stands for want of descriptors or memory.
pub open spec fn exhausted(code: Option<i32>) -> bool {
    code == Some(24i32) || code == Some(23i32) || code == Some(12i32)
}

/// Whether the error number stands for want of descriptors or memory.
pub fn is_resource_exhaustion(code: Option<i32>) -> (yes: bool)
    ensures
        yes == exhausted(code),
{
    match code {
        Some(number) => number == process_out_of_files() || number == system_out_of_files() || number
            == out_of_memory(),
        None => false,
    }
}

/// What an attempt to set up a ring says about the kernel. The error is given by
/// its number.
pub open spec fn judged(attempt: Result<(), Option<i32>>) -> Probe {
    match attempt {
        Ok(_) => Probe { backend: IoBackend::IoUring, inconclusive: false, error: None },
        Err(code) => Probe {
            backend: IoBackend::Epoll,
            inconclusive: exhausted(code),
            error: code,
        },
    }
}

/// Judges an attempt to set up a ring.
pub fn judge(attempt: Result<(), Option<i32>>) -> (probe: Probe)
    ensures
        probe == judged(attempt),
{
    match attempt {
        Ok(_) => Probe { backend: IoBackend::IoUring, inconclusive: false, error: None },
        Err(code) => Probe {
            backend: IoBackend::Epoll,
            inconclusive: is_resource_exhaustion(code),
            error: code,
        },
    }
}

/// `io_uring::IoUring::new`: asks the kernel for a ring of `entries` entries and
/// gives it up again. Nothing is claimed of the outcome, which rests with the
/// kernel and the limits of the process; an error is handed on by its number.
#[verifier::external_body]
fn set_up_ring(entries: u32) -> (attempt: Result<(), Option<i32>>) {
    match io_uring::IoUring::new(entries) {
        Ok(_) => Ok(()),
        Err(error) => Err(error.raw_os_error()),
    }
}

/// An attempt to set up a ring of `entries` entries may come to `attempt`.
pub closed spec fn may_come_to(entries: u32, attempt: Result<(), Option<i32>>) -> bool {
    call_ensures(set_up_ring, (entries,), attempt)
}

/// Finds out what the kernel offers, by asking for the smallest ring there is,
/// and whether the answer is conclusive.
pub fn examine() -> (probe: Probe)
    ensures
        exists|attempt: Result<(), Option<i32>>|
            #[trigger] may_come_to(1, attempt) && probe == judged(attempt),
{
    let attempt = set_up_ring(1);
    assert(may_come_to(1, attempt));
    judge(attempt)
}

/// Finds out what the kernel offers.
pub fn probe() -> (backend: IoBackend)
    ensures
        exists|attempt: Result<(), Option<i32>>|
            #[trigger] may_come_to(1, attempt) && backend == judged(attempt).backend,
{
    examine().backend
}

} // verus!
