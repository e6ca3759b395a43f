//! Decision logic of a concurrent reconnaissance pipeline.
//!
//! The pipeline reads candidate targets line by line, skips the ones whose
//! result is already stored, probes the rest under a shared admission budget,
//! classifies what each probe reports and persists the results idempotently.
//! This crate holds every rule of that pipeline as verified code over plain
//! values; the program around it performs the network and store round trips.

pub mod admission;
pub mod bindings;
pub mod executor;
pub mod fqdn;
pub mod headers;
pub mod outcome;
pub mod pipeline;
pub mod sink;
pub mod store;
pub mod target;
pub mod text;

pub use fqdn::{Fqdn, ParseFqdnError};
pub use target::{IpAddrOrFqdn, ParseIpAddrOrFqdnError};
