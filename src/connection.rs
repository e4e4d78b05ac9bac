//! Accounting of proxied connections.
use vstd::prelude::*;

verus! {

/// A client stream and the remote stream it is relayed to.
pub struct ProxyConnection<C, R> {
    client_stream: C,
    remote_stream: R,
}

impl<C, R> ProxyConnection<C, R> {
    pub closed spec fn client(&self) -> C {
        self.client_stream
    }

    pub closed spec fn remote(&self) -> R {
        self.remote_stream
    }

    pub fn new(client_stream: C, remote_stream: R) -> (r: ProxyConnection<C, R>)
        ensures
            r.client() == client_stream,
            r.remote() == remote_stream,
    {
        ProxyConnection { client_stream, remote_stream }
    }

    /// The two streams, to relay between them.
    pub fn into_parts(self) -> (r: (C, R))
        ensures
            r.0 == self.client(),
            r.1 == self.remote(),
    {
        (self.client_stream, self.remote_stream)
    }
}

/// The default cap on concurrently handled connections.
pub const DEFAULT_MAX_CONNECTIONS: usize = 4096;

/// Counts active proxy sessions and caps how many may run at once.
#[derive(Debug, Clone, Copy)]
pub struct ConnectionManager {
    active: usize,
    limit: usize,
}

impl ConnectionManager {
    pub closed spec fn active(&self) -> nat {
        self.active as nat
    }

    pub closed spec fn limit(&self) -> nat {
        self.limit as nat
    }

    /// At most `limit` sessions are active.
    pub closed spec fn wf(&self) -> bool {
        self.active <= self.limit
    }

    pub fn new() -> (r: ConnectionManager)
        ensures
            r.wf(),
            r.active() == 0,
            r.limit() == DEFAULT_MAX_CONNECTIONS,
    {
        ConnectionManager { active: 0, limit: DEFAULT_MAX_CONNECTIONS }
    }

    pub fn with_limit(limit: usize) -> (r: ConnectionManager)
        ensures
            r.wf(),
            r.active() == 0,
            r.limit() == limit,
    {
        ConnectionManager { active: 0, limit }
    }

    pub fn active_count(&self) -> (r: usize)
        ensures
            r == self.active(),
    {
        self.active
    }

    /// Starts a session if the cap allows it.
    pub fn try_acquire(&mut self) -> (r: bool)
        requires
            old(self).wf(),
        ensures
            final(self).wf(),
            final(self).limit() == old(self).limit(),
            r == (old(self).active() < old(self).limit()),
            r ==> final(self).active() == old(self).active() + 1,
            !r ==> final(self).active() == old(self).active(),
    {
        if self.active < self.limit {
            self.active = self.active + 1;
            true
        } else {
            false
        }
    }

    /// Ends a session.
    pub fn release(&mut self)
        requires
            old(self).wf(),
        ensures
            final(self).wf(),
            final(self).limit() == old(self).limit(),
            old(self).active() > 0 ==> final(self).active() == old(self).active() - 1,
            old(self).active() == 0 ==> final(self).active() == 0,
    {
        if self.active > 0 {
            self.active = self.active - 1;
        }
    }
}

impl Default for ConnectionManager {
    fn default() -> (r: ConnectionManager)
        ensures
            r.wf(),
            r.active() == 0,
            r.limit() == DEFAULT_MAX_CONNECTIONS,
    {
        ConnectionManager::new()
    }
}

} // verus!
