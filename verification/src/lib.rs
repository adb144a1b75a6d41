//! Ingestion, bounded retention and fan-out of CAN bus frames.
//!
//! The crate holds the decision logic of a bus monitor, each part with its
//! contract:
//!
//! - [`message`]: the canonical record and the codec that validates a raw
//!   frame;
//! - [`wire`]: reading and building the frames of the bus driver;
//! - [`outbound`]: validation of frames that are to be transmitted;
//! - [`bounded`]: the bounded first-in, first-out queue and its laws;
//! - [`history`]: the bounded store of recent records and its snapshots;
//! - [`fanout`]: the lossy multi-subscriber broadcaster;
//! - [`query`]: identifier filters written as text, and query answers;
//! - [`shutdown`]: the shutdown signal;
//! - [`ingest`]: the ingestion loop as a state machine;
//! - [`session`]: the consumer session as a state machine.
//!
//! Nothing here blocks, waits or does I/O: a runtime drives the two state
//! machines with the events it observes and guards the shared parts.

pub mod bounded;
pub mod fanout;
pub mod history;
pub mod ingest;
pub mod message;
pub mod outbound;
pub mod query;
pub mod session;
pub mod shutdown;
pub mod wire;
