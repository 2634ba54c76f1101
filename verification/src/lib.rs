//! Core of a small cooperative kernel: a first-fit free-list heap allocator,
//! a cooperative task executor driven by a bounded ready queue, and the
//! interrupt-to-task event bridge that carries raw scancode bytes from a
//! producer running in interrupt context to an asynchronous consumer task.
//!
//! Hardware setup (interrupt tables, port I/O, the privilege switch) and the
//! display sink live outside this crate; the algorithmic core here is fully
//! specified and verified over explicit models of memory regions, queues and
//! task state.

pub mod allocator;
pub mod executor;
pub mod interrupts;
pub mod keyboard;
pub mod queue;
pub mod task;
pub mod userspace;
