//! Bounded, queryable history of process-execution events.
//!
//! A kernel-resident capture program intercepts process executions, packs each
//! one into a fixed-shape record (`event::ExecEvent`), optionally suppresses
//! known-noisy commands (`capture`), and publishes the record through a
//! per-CPU channel. The userspace consumer decodes the record from its wire
//! bytes (`wire`), reconstructs a wall-clock timestamp from the kernel's
//! boot-relative one (`clock`), and retains the result in a bounded FIFO
//! store with a per-pid index (`store`).
//!
//! This crate holds the verified core: the wire format, the capture decision
//! logic, the timestamp correlation, and the store. The kernel plumbing and
//! the HTTP query surface live outside it and exchange plain values with it.

pub mod capture;
pub mod clock;
pub mod event;
pub mod store;
pub mod text;
pub mod wire;
