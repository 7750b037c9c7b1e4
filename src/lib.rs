//! Write a disk image onto a file, disk or partition, then read both sides
//! back and compare them, reporting progress as a stream of status messages.
pub mod engine;
pub mod escalation;
pub mod frame;
pub mod ipc;
pub mod memory;
pub mod monitor;
pub mod stream;
pub mod worker;
