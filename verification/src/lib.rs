//! A cooperative single-address-space micro-kernel: a process table driven by
//! a discrete tick loop, a FIFO inter-process message bus, and a path-addressed
//! virtual filesystem mirrored by an in-memory index.
//!
//! The kernel owns the process table, the message queue, the filesystem index
//! and a wall-clock mirror; processes (the shell, a system clock, a demo
//! process) run one step per tick and coordinate only through the message bus.
//! The host (a browser front end) drives `Kernel::tick` once per frame,
//! injects keystrokes into the console buffer, and mirrors filesystem
//! mutations into durable storage.

pub mod calendar;
pub mod clock;
pub mod demo;
pub mod kernel;
pub mod process;
pub mod shell;
pub mod text;
pub mod vfs;

use vstd::prelude::*;

verus! {

/// Host name shown in the shell prompt.
pub const HOSTNAME: &'static str = "r-os";

} // verus!
