//! Demand paging and live capture of guest memory over userfaultfd.
//!
//! The modules decide; the calls themselves are made by a driver, which performs what a state
//! machine asks for and reports back how it went.
//!
//! - [`range`]: the pages of a registered range.
//! - [`userfaultfd`], [`reply`]: the kernel's requests and what its replies mean.
//! - [`memory_source`], [`source`], [`source_laws`]: resolving faults from a file or a peer.
//! - [`capture`], [`capture_laws`], [`consistency`]: capturing write-protected memory.
//! - [`handoff`]: the messages to an external fault handler.
//! - [`text`]: numbers in error messages.

pub mod capture;
pub mod capture_laws;
pub mod consistency;
pub mod handoff;
pub mod memory_source;
pub mod range;
pub mod reply;
pub mod source;
pub mod source_laws;
pub mod text;
pub mod userfaultfd;
