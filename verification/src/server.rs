//! The web server's configuration.  The routing layer itself lives with
//! the binary that embeds the library.

use vstd::prelude::*;

verus! {

/// Configuration of the serving endpoint.
#[derive(Debug, Clone, Copy, PartialEq, Eq, Structural)]
pub struct AIServer {
    port: u16,
}

impl AIServer {
    pub fn new(port: u16) -> (r: AIServer)
        ensures
            r.port() == port,
    {
        AIServer { port }
    }

    pub closed spec fn port(&self) -> u16 {
        self.port
    }

    pub fn bind_port(&self) -> (r: u16)
        ensures
            r == self.port(),
    {
        self.port
    }
}

} // verus!
