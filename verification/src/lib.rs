//! Scheduling cores of a Stacks-family node: the Atlas attachment downloader
//! and the signer run-loop, written as state machines over plain values.

pub mod batch;
pub mod batched;
pub mod bits;
pub mod burnchain;
pub mod context;
pub mod digest;
pub mod dns;
pub mod downloader;
pub mod events;
pub mod keys;
pub mod machine;
pub mod pq;
pub mod reliability;
pub mod requests;
pub mod runloop;
pub mod signer;
pub mod types;
pub mod vecmap;
