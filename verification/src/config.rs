//! Process configuration: bind interface, the two listening ports, an
//! optional shutdown timer, and the logging level. Parsing command-line
//! arguments into these values is the launcher's business; the library
//! only holds and combines them.

use vstd::prelude::*;

verus! {

use vstd::string::{StrSliceExecFns, StringExecFns};

/// How much the server logs.
#[derive(Clone, Copy, Debug, PartialEq, Eq, Structural)]
pub enum Verbosity {
    Info,
    Debug,
    Trace,
}

/// The server's run-time configuration.
pub struct Config {
    /// Seconds after which the server shuts down, if given.
    pub timeout: Option<u64>,
    /// The interface to listen on.
    pub addr: String,
    /// The port for direct TCP connections.
    pub tcp_port: String,
    /// The port for HTTP connections.
    pub http_port: String,
    /// The level of verbosity.
    pub verbosity: Verbosity,
}

impl Default for Config {
    /// Listen on all interfaces, TCP on 4000, HTTP on 4080, no shutdown
    /// timer, informational logging.
    fn default() -> (r: Self)
        ensures
            r.timeout is None,
            r.addr@ == "0.0.0.0"@,
            r.tcp_port@ == "4000"@,
            r.http_port@ == "4080"@,
            r.verbosity == Verbosity::Info,
    {
        Config {
            timeout: None,
            addr: String::from_str("0.0.0.0"),
            tcp_port: String::from_str("4000"),
            http_port: String::from_str("4080"),
            verbosity: Verbosity::Info,
        }
    }
}

impl Config {
    /// The `address:port` the TCP listener binds.
    pub fn tcp_addr(&self) -> (r: String)
        ensures
            r@ == self.addr@ + ":"@ + self.tcp_port@,
    {
        let mut r = self.addr.clone();
        r.append(":");
        r.append(self.tcp_port.as_str());
        r
    }

    /// The `address:port` the HTTP listener binds.
    pub fn http_addr(&self) -> (r: String)
        ensures
            r@ == self.addr@ + ":"@ + self.http_port@,
    {
        let mut r = self.addr.clone();
        r.append(":");
        r.append(self.http_port.as_str());
        r
    }
}

} // verus!
