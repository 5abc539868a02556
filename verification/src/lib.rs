//! Verified core of a Network Error Logging (NEL) report ingestion service.
//!
//! Browsers submit batches of NEL reports as a JSON array. The library
//! decodes such a batch, resolves a per-request client context (anonymized
//! IP prefix, network and location attributes, browser identity), assembles
//! one log record per report and serializes each record to a JSON log line.
//! The host program owns the HTTP and log-sink plumbing; it hands the
//! library plain values and writes out the lines the library returns.

pub mod ip;
pub mod model;
pub mod jsonout;
pub mod jsonin;
pub mod pipeline;
pub mod roundtrip;
