//! Verified core of a small interrupt-driven firmware layer: a priority
//! scheduler with bounded task queues and timed releases, a single-owner
//! shared cell with ceiling-priority arbitration, a circular two-half DMA
//! receive model, a transmit channel state, and a message reassembler that
//! joins fragments until an idle-terminated short one.

pub mod cell;
pub mod reassembly;
pub mod dma;
pub mod scheduler;
pub mod serial;
pub mod mono;
pub mod arbiter;
