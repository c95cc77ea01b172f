//! Deterministic addressing: each protocol has a fixed port base, and a
//! node's listener sits at base plus node identifier. The client- and
//! management-response addresses are fixed and shared.
use vstd::prelude::*;

verus! {

/// Base of the per-node peer (consensus message) listener ports.
pub const SERV_PORT_BASE: u64 = 50000;

/// Base of the per-node management listener ports.
pub const MAN_PORT_BASE: u64 = 51000;

/// Base of the per-node client command listener ports; the fixed
/// client-response address is this base itself.
pub const CMD_PORT_BASE: u64 = 52000;

/// The fixed management-response port, where `get_links` replies go.
pub const MAN_CLIENT_PORT: u64 = 53000;

/// The largest node identifier for which the derived ports stay within the
/// range a socket address can carry.
pub const MAX_NODE_ID: u64 = 999;

/// The peer listener port of node `id`.
pub fn peer_port(id: u64) -> (r: u64)
    requires
        id <= MAX_NODE_ID,
    ensures
        r == SERV_PORT_BASE + id,
{
    SERV_PORT_BASE + id
}

/// The management listener port of node `id`.
pub fn management_port(id: u64) -> (r: u64)
    requires
        id <= MAX_NODE_ID,
    ensures
        r == MAN_PORT_BASE + id,
{
    MAN_PORT_BASE + id
}

/// The client command listener port of node `id`.
pub fn command_port(id: u64) -> (r: u64)
    requires
        id <= MAX_NODE_ID,
    ensures
        r == CMD_PORT_BASE + id,
{
    CMD_PORT_BASE + id
}

} // verus!
