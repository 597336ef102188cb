//! How a path becomes a connection.

use vstd::prelude::*;

verus! {

/// What is found at a path.
#[derive(Debug, Clone, Copy, PartialEq, Eq, Structural)]
pub enum Found {
    /// A socket.
    Socket,
    /// Anything else, such as a device.
    Other,
    /// Nothing.
    Missing,
    /// It could not be found out.
    Unknown,
}

/// What is done with a path.
#[derive(Debug, Clone, Copy, PartialEq, Eq, Structural)]
pub enum Plan {
    /// The socket that is there is removed, and connections are taken at a new
    /// one.
    Replace,
    /// Connections are taken at a new socket.
    Serve,
    /// The socket is connected to, and the peer at its other end is served.
    Connect,
    /// The file is opened, and who is behind it is served.
    Open,
    /// Nothing: what went wrong is reported.
    Fail,
}

/// What is done with a path at which `found` is found, where `serve` asks for
/// connections to be taken rather than made.
pub fn open_stream(found: Found, serve: bool) -> (r: Plan)
    ensures
        r == (match (found, serve) {
            (Found::Socket, true) => Plan::Replace,
            (Found::Socket, false) => Plan::Connect,
            (Found::Other, _) => Plan::Open,
            (Found::Missing, true) => Plan::Serve,
            (Found::Missing, false) => Plan::Fail,
            (Found::Unknown, _) => Plan::Fail,
        }),
{
    match found {
        Found::Socket => if serve {
            Plan::Replace
        } else {
            Plan::Connect
        },
        Found::Other => Plan::Open,
        Found::Missing => if serve {
            Plan::Serve
        } else {
            Plan::Fail
        },
        Found::Unknown => Plan::Fail,
    }
}

/// Nothing but a socket is ever removed, and that only to take connections
/// there; connections are taken if and only if they are asked for and nothing
/// but a socket is in the way; what is there and no socket is opened; a path
/// at which nothing is found fails unless connections are to be taken, and one
/// that cannot be looked at always does.
pub proof fn law_open_stream(found: Found, serve: bool, r: Plan)
    requires
        call_ensures(open_stream, (found, serve), r),
    ensures
        r is Replace <==> found is Socket && serve,
        r is Connect <==> found is Socket && !serve,
        r is Open <==> found is Other,
        r is Serve <==> found is Missing && serve,
        r is Fail <==> found is Unknown || found is Missing && !serve,
{
}

} // verus!
