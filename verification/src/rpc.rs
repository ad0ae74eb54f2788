//! The pending-RPC registry and the reply routes of received requests.
use vstd::prelude::*;

verus! {

/// Where a sent RPC stands.
#[derive(Clone, Copy, PartialEq, Eq, Debug, Structural)]
pub enum PendingStatus {
    Pending,
    Done,
    Failed,
    Cancelled,
}

/// An RPC this node sent. `params`, `result` and `error` are JSON texts
/// (`"null"` when absent); times are milliseconds since the epoch.
#[derive(Debug)]
pub struct Pending {
    pub request_id: String,
    pub target: String,
    pub method: String,
    pub params: String,
    pub status: PendingStatus,
    pub attempts: u32,
    pub created_at: u64,
    pub expires_at: u64,
    pub result: String,
    pub error: String,
}

/// How to answer an RPC request this node received.
#[derive(Debug)]
pub struct RpcMeta {
    pub reply_to: Option<String>,
    pub from: Option<String>,
}

} // verus!
