//! Keeps a validator registered with a block engine that sends it shreds.
//!
//! Heartbeats over gRPC register the validator's sockets. The modules here hold what the threads
//! that send them decide; the connections, threads and clocks belong to the caller.
use vstd::prelude::*;
use vstd::string::StringExecFns;

pub mod auth;
pub mod config;
pub mod file_log;
pub mod health;
pub mod heartbeat;
pub mod laws;
pub mod multi_heartbeat;
pub mod service;

verus! {

/// Errors of the service.
#[derive(Debug)]
pub enum ShredstreamError {
    /// The configuration cannot be used.
    Config(String),
    /// The block engine cannot be reached.
    Connection(auth::BlockEngineConnectionError),
}

/// The text of an error.
pub open spec fn shredstream_error_text(error: ShredstreamError) -> Seq<char> {
    match error {
        ShredstreamError::Config(msg) => "configuration error: "@ + msg@,
        ShredstreamError::Connection(e) => "connection error: "@ + auth::connection_error_text(e),
    }
}

impl ShredstreamError {
    /// The error as text.
    pub fn text(&self) -> (text: String)
        ensures
            text@ == shredstream_error_text(*self),
    {
        match self {
            ShredstreamError::Config(msg) => {
                let mut text = crate::text::owned("configuration error: ");
                text.append(msg.as_str());
                text
            },
            ShredstreamError::Connection(e) => {
                let mut text = crate::text::owned("connection error: ");
                let cause = e.text();
                text.append(cause.as_str());
                text
            },
        }
    }
}

} // verus!
