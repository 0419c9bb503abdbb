//! Bounds on the daemon's control connections.
use vstd::prelude::*;

use crate::text::concat;
use vstd::string::StringExecFns;

verus! {

/// Most connections served at a time.
pub const MAX_CONCURRENT_CONNECTIONS: usize = 32;

/// Connections that are served.
#[derive(Debug)]
pub struct ConnectionSlots {
    active: usize,
}

impl View for ConnectionSlots {
    type V = nat;

    closed spec fn view(&self) -> nat {
        self.active as nat
    }
}

impl ConnectionSlots {
    /// Never more connections than the bound.
    #[verifier::type_invariant]
    spec fn bounded(&self) -> bool {
        self.active <= MAX_CONCURRENT_CONNECTIONS
    }

    pub fn new() -> (r: ConnectionSlots)
        ensures
            r@ == 0,
    {
        ConnectionSlots { active: 0 }
    }

    /// Takes a place for a connection; `false` when all are taken.
    pub fn try_open(&mut self) -> (r: bool)
        ensures
            r == (old(self)@ < MAX_CONCURRENT_CONNECTIONS),
            final(self)@ == if r {
                old(self)@ + 1
            } else {
                old(self)@
            },
            final(self)@ <= MAX_CONCURRENT_CONNECTIONS,
    {
        proof {
            use_type_invariant(&*self);
        }
        if self.active >= MAX_CONCURRENT_CONNECTIONS {
            return false;
        }
        self.active = self.active + 1;
        true
    }

    /// Gives the place of a connection back.
    pub fn close(&mut self)
        requires
            old(self)@ > 0,
        ensures
            final(self)@ == old(self)@ - 1,
    {
        proof {
            use_type_invariant(&*self);
        }
        self.active = self.active - 1;
    }
}

/// Whether a socket may be bound below `parent`. A symlink there could lead
/// elsewhere and is refused.
pub fn check_socket_parent(parent: &str, is_symlink: bool) -> (r: Result<(), String>)
    ensures
        match r {
            Ok(_) => !is_symlink,
            Err(message) => is_symlink && message@ == "IPC socket parent "@ + parent@
                + " is a symlink; refusing to bind through it"@,
        },
{
    if is_symlink {
        let mut message = concat("IPC socket parent ", parent);
        message.append(" is a symlink; refusing to bind through it");
        return Err(message);
    }
    Ok(())
}

/// Thirty-two connections may be open at once; one more is refused, and a
/// connection that closes makes room for another.
pub proof fn law_connections_are_limited(
    slots: &mut ConnectionSlots,
    freed: &mut ConnectionSlots,
    opened: bool,
)
    requires
        call_ensures(ConnectionSlots::try_open, (slots,), opened),
        call_ensures(ConnectionSlots::close, (freed,), ()),
    ensures
        opened <==> old(slots)@ < 32,
        opened ==> final(slots)@ == old(slots)@ + 1,
        !opened ==> final(slots)@ == old(slots)@,
        final(slots)@ <= 32,
        final(freed)@ + 1 == old(freed)@,
{
}

/// A socket is never bound through a link.
pub proof fn law_a_link_is_refused(parent: &str, is_symlink: bool, r: Result<(), String>)
    requires
        call_ensures(check_socket_parent, (parent, is_symlink), r),
    ensures
        r is Err <==> is_symlink,
{
}

} // verus!
