//! The host notification channel endpoint.
//!
//! The host registers a port once; finished transcripts are pushed to it
//! asynchronously. Only the registration state lives here — the actual
//! cross-isolate post is platform glue outside this crate, and it must
//! post only while a port is registered.

use vstd::prelude::*;

verus! {

/// A host-side port identifier.
pub type DartPort = i64;

/// The registration state of the host notification channel.
pub struct HostChannel {
    port: DartPort,
}

impl HostChannel {
    /// The registered port; zero means none.
    pub closed spec fn spec_port(&self) -> i64 {
        self.port
    }

    /// Whether a port has been registered.
    pub open spec fn registered(&self) -> bool {
        self.spec_port() != 0
    }

    /// A channel with no port registered.
    pub fn new() -> (c: HostChannel)
        ensures
            c.spec_port() == 0,
            !c.registered(),
    {
        HostChannel { port: 0 }
    }

    /// Registers the port for host notifications.
    pub fn set_dart_port(&mut self, port: DartPort)
        ensures
            final(self).spec_port() == port,
    {
        self.port = port;
    }

    /// The registered port.
    pub fn port(&self) -> (p: DartPort)
        ensures
            p == self.spec_port(),
    {
        self.port
    }
}

} // verus!
