//! A broadcast stage for an event pipeline: one incoming stream of batches is
//! forwarded to every member of a reconfigurable set of downstream outputs.
//!
//! The library is the verified decision core. It owns the output slots, the
//! readiness-sweep cursor, and the failure policy, and it is driven step by
//! step: the caller performs each downstream protocol call (readiness, accept,
//! flush, close) on the handle the core hands out, and reports the outcome
//! back. Every state change of the core is specified and proved; the actual
//! asynchronous calls stay with the driver.

pub mod fanout;
pub mod laws;
pub mod slot;
