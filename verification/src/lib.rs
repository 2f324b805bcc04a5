//! A point-to-point file transfer, decided step by step.
//!
//! One side sends a file's bytes over a single connection; the other side
//! listens, takes one connection, reads it to its end and stores the bytes.
//! There is no framing: the whole file is the whole payload, and closing the
//! connection is the only mark of its end.
//!
//! Every decision of the two operations lives here. The caller performs the
//! input and output, one step at a time, and reports back what happened:
//!
//! - [`mode`]: the two roles of a run.
//! - [`acquire`]: asking the operator again until an answer can be used.
//! - [`suggest`]: file names offered while a path is typed.
//! - [`endpoint`]: network addresses as plain values.
//! - [`notice`]: the lines shown to the operator.
//! - [`exchange`]: the steps asked of the caller and the reports it gives.
//! - [`sender`], [`receiver`]: the two operations, step by step.
//! - [`transfer`]: a run in either role, and what both achieve together.

pub mod acquire;
pub mod endpoint;
pub mod exchange;
pub mod mode;
pub mod notice;
pub mod receiver;
pub mod sender;
pub mod suggest;
pub mod transfer;
