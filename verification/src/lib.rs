//! Mavrik: a task-execution server core.
//!
//! The crate verifies the coordination logic of a small task server: task
//! identifiers, the length-prefixed JSON wire protocol, the in-memory task
//! store, the dispatcher that matches queued tasks to ready worker threads,
//! and the per-connection request handler. I/O, scheduling and the host
//! runtime that actually executes task bodies live outside the library.

use vstd::prelude::*;

pub mod config;
pub mod executor;
pub mod framing;
pub mod handler;
pub mod json;
pub mod messages;
pub mod protocol;
pub mod store;
pub mod task_id;
pub mod text;

verus! {

/// The number of worker threads a task executor drives by default.
pub const DEFAULT_THREAD_COUNT: usize = 4;

/// The options the server is started with; an absent field means its
/// default.
#[derive(Debug, Clone)]
pub struct MavrikOptions {
    /// The host to bind to; `127.0.0.1` when absent.
    pub host: Option<String>,
    /// The port to bind to; 3001 when absent.
    pub port: Option<u16>,
    /// The number of worker threads; four when absent.
    pub rb_thread_count: Option<usize>,
    /// Whether to signal the parent process when ready; off when absent.
    pub signal_parent_ready: Option<bool>,
}

impl MavrikOptions {
    /// The host to bind to.
    pub fn host(&self) -> (r: String)
        ensures
            match self.host {
                Option::Some(h) => r@ == h@,
                Option::None => r@ == "127.0.0.1"@,
            },
    {
        match &self.host {
            Option::Some(h) => h.clone(),
            Option::None => crate::config::default_host().to_owned(),
        }
    }

    /// The port to bind to.
    pub fn port(&self) -> (r: u16)
        ensures
            match self.port {
                Option::Some(p) => r == p,
                Option::None => r == crate::config::DEFAULT_PORT,
            },
    {
        match self.port {
            Option::Some(p) => p,
            Option::None => crate::config::DEFAULT_PORT,
        }
    }

    /// The number of worker threads.
    pub fn rb_thread_count(&self) -> (r: usize)
        ensures
            match self.rb_thread_count {
                Option::Some(n) => r == n,
                Option::None => r == DEFAULT_THREAD_COUNT,
            },
    {
        match self.rb_thread_count {
            Option::Some(n) => n,
            Option::None => DEFAULT_THREAD_COUNT,
        }
    }

    /// Whether to signal the parent process when ready.
    pub fn signal_parent_ready(&self) -> (r: bool)
        ensures
            match self.signal_parent_ready {
                Option::Some(b) => r == b,
                Option::None => r == false,
            },
    {
        match self.signal_parent_ready {
            Option::Some(b) => b,
            Option::None => false,
        }
    }
}

/// The server: it owns the options and, outside this library, drives the
/// store, the executor, the listener and the signal listener to completion.
#[derive(Debug, Clone)]
pub struct Mavrik {
    pub options: MavrikOptions,
}

impl Mavrik {
    /// A server over the given options.
    pub fn new(options: MavrikOptions) -> (r: Mavrik)
        ensures
            r.options == options,
    {
        Mavrik { options }
    }
}

} // verus!
