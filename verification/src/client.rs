//! Client connection tracking and state management.
use vstd::prelude::*;

use crate::clock::{elapsed, elapsed_nanos};
use crate::text::{decimal, decimal_u64, join};

verus! {

/// Numbers the clients, one after the other.
#[derive(Clone, Copy, Debug, PartialEq, Eq, Structural)]
pub struct ClientIdCounter {
    pub next: u64,
}

/// The identifier of the client with the given number.
pub open spec fn numbered_client(number: u64) -> Seq<char> {
    "client-"@ + decimal(number as nat)
}

impl ClientIdCounter {
    /// The first client has the number zero.
    pub fn new() -> (result: Self)
        ensures
            result.next == 0,
    {
        ClientIdCounter { next: 0 }
    }

    /// Generate a unique client ID
    pub fn generate_client_id(&mut self) -> (result: String)
        ensures
            result@ == numbered_client(old(self).next),
            final(self).next == old(self).next.wrapping_add(1),
    {
        let digits: String = decimal_u64(self.next);
        self.next = self.next.wrapping_add(1);
        join("client-", digits.as_str())
    }
}

/// Clients with different numbers have different identifiers.
pub proof fn lemma_client_ids_distinct(a: u64, b: u64)
    requires
        numbered_client(a) == numbered_client(b),
    ensures
        a == b,
{
    let left = numbered_client(a);
    let right = numbered_client(b);
    assert(left.len() == "client-"@.len() + decimal(a as nat).len());
    assert(right.len() == "client-"@.len() + decimal(b as nat).len());
    assert(left.skip("client-"@.len() as int) =~= decimal(a as nat));
    assert(right.skip("client-"@.len() as int) =~= decimal(b as nat));
    crate::text::lemma_decimal_injective(a as nat, b as nat);
}

/// Where a client stands.
#[derive(Debug, PartialEq, Eq)]
pub enum ClientState {
    /// Initial connection state
    Connecting,
    /// Successfully connected and proxying
    Connected,
    /// In process of being transferred to another server
    Transferring { from_server: String, to_server: String },
    /// Connection closed
    Disconnected,
    /// Error state
    Error(String),
}

/// Client connection information and state
#[derive(Debug)]
pub struct ClientInfo {
    /// Unique client identifier
    pub id: String,
    /// Client socket address
    pub addr: String,
    /// Currently connected server ID
    pub current_server: String,
    /// Connection start time
    pub connected_at: i64,
    /// Number of bytes transferred
    pub bytes_transferred: u64,
    /// Client state
    pub state: ClientState,
}

impl ClientInfo {
    /// A client that connects at `now`, with the next identifier.
    pub fn new(addr: String, server_id: String, ids: &mut ClientIdCounter, now: i64) -> (result: Self)
        ensures
            final(ids).next == old(ids).next.wrapping_add(1),
            result.id@ == numbered_client(old(ids).next),
            result.addr == addr,
            result.current_server == server_id,
            result.connected_at == now,
            result.bytes_transferred == 0,
            result.state is Connecting,
    {
        ClientInfo {
            id: ids.generate_client_id(),
            addr,
            current_server: server_id,
            connected_at: now,
            bytes_transferred: 0,
            state: ClientState::Connecting,
        }
    }

    /// Update client state
    pub fn set_state(&mut self, state: ClientState)
        ensures
            *final(self) == (ClientInfo { state, ..*old(self) }),
    {
        self.state = state;
    }

    /// Add transferred bytes
    pub fn add_bytes_transferred(&mut self, bytes: u64)
        requires
            old(self).bytes_transferred + bytes <= u64::MAX,
        ensures
            *final(self) == (ClientInfo {
                bytes_transferred: (old(self).bytes_transferred + bytes) as u64,
                ..*old(self)
            }),
    {
        self.bytes_transferred = self.bytes_transferred + bytes;
    }

    /// Get connection duration, in nanoseconds
    pub fn connection_duration(&self, now: i64) -> (result: u64)
        ensures
            result == elapsed(self.connected_at as int, now as int),
    {
        elapsed_nanos(self.connected_at, now)
    }

    /// Check if client is in a state that allows transfer
    pub fn can_transfer(&self) -> (result: bool)
        ensures
            result == (self.state is Connected),
    {
        matches!(self.state, ClientState::Connected)
    }
}

} // verus!
