//! The MCP (Model Context Protocol) surface: the tool catalogue and the
//! routing of JSON-RPC requests. The stdio loop and the JSON schemas live at
//! the edge; the decisions are here.
use vstd::prelude::*;
use crate::text::{str_eq, views};
use crate::wake::{debug_quote, debug_quoted};

verus! {

/// Server name announced in `initialize`.
pub const SERVER_NAME: &'static str = "agent-mux";

/// The tools, in the order `tools/list` announces them.
pub open spec fn tool_name_seq() -> Seq<Seq<char>> {
    seq![
        "mux_init"@,
        "mux_status"@,
        "topology"@,
        "wait_events"@,
        "mux_pull"@,
        "wait_control"@,
        "wait_rpc_requests"@,
        "send_rpc"@,
        "get_result"@,
        "ping"@,
        "list_pending"@,
        "retry"@,
        "cancel"@,
        "rpc_reply"@,
        "send_control"@,
        "report_status"@,
        "list_zones"@,
        "zone_acquire"@,
        "zone_release"@,
        "get_zone_snapshot"@,
        "report_conflict"@,
        "list_conflicts"@,
        "risk_zones"@,
        "mux_digest"@,
        "mux_watch"@,
        "watch_cancel"@,
        "zone_request"@,
        "zone_steal"@,
        "task_list"@,
        "task_show"@,
        "task_cancel"@,
        "task_force"@,
        "approval_decide"@,
    ]
}

/// The names of all tools, in catalogue order.
pub fn tool_names() -> (r: Vec<String>)
    ensures
        views(r@) == tool_name_seq(),
{
    let mut v: Vec<String> = Vec::new();
    v.push(String::from_str("mux_init"));
    v.push(String::from_str("mux_status"));
    v.push(String::from_str("topology"));
    v.push(String::from_str("wait_events"));
    v.push(String::from_str("mux_pull"));
    v.push(String::from_str("wait_control"));
    v.push(String::from_str("wait_rpc_requests"));
    v.push(String::from_str("send_rpc"));
    v.push(String::from_str("get_result"));
    v.push(String::from_str("ping"));
    v.push(String::from_str("list_pending"));
    v.push(String::from_str("retry"));
    v.push(String::from_str("cancel"));
    v.push(String::from_str("rpc_reply"));
    v.push(String::from_str("send_control"));
    v.push(String::from_str("report_status"));
    v.push(String::from_str("list_zones"));
    v.push(String::from_str("zone_acquire"));
    v.push(String::from_str("zone_release"));
    v.push(String::from_str("get_zone_snapshot"));
    v.push(String::from_str("report_conflict"));
    v.push(String::from_str("list_conflicts"));
    v.push(String::from_str("risk_zones"));
    v.push(String::from_str("mux_digest"));
    v.push(String::from_str("mux_watch"));
    v.push(String::from_str("watch_cancel"));
    v.push(String::from_str("zone_request"));
    v.push(String::from_str("zone_steal"));
    v.push(String::from_str("task_list"));
    v.push(String::from_str("task_show"));
    v.push(String::from_str("task_cancel"));
    v.push(String::from_str("task_force"));
    v.push(String::from_str("approval_decide"));
    assert(views(v@) =~= tool_name_seq());
    v
}

/// Look a tool up by name: its position in `tool_names()`, or `None` when no
/// such tool exists (the call is then answered with `unknown tool: ...`).
pub fn tool_index(name: &str) -> (r: Option<usize>)
    ensures
        match r {
            Some(i) => i < tool_name_seq().len() && tool_name_seq()[i as int] == name@,
            None => forall|i: int| 0 <= i < tool_name_seq().len() ==> tool_name_seq()[i] != name@,
        },
{
    let names = tool_names();
    let mut i: usize = 0;
    while i < names.len()
        invariant
            views(names@) == tool_name_seq(),
            i <= names@.len(),
            forall|j: int| 0 <= j < i ==> tool_name_seq()[j] != name@,
        decreases names@.len() - i,
    {
        if str_eq(names[i].as_str(), name) {
            assert(views(names@)[i as int] == names@[i as int]@);
            return Some(i);
        }
        assert(views(names@)[i as int] == names@[i as int]@);
        i = i + 1;
    }
    None
}

/// A tool of the catalogue, one variant per entry of `tool_names()`.
#[derive(Debug, Clone, Copy, PartialEq, Eq, Structural)]
pub enum Tool {
    /// `mux_init`
    MuxInit,
    /// `mux_status`
    MuxStatus,
    /// `topology`
    Topology,
    /// `wait_events`
    WaitEvents,
    /// `mux_pull`
    MuxPull,
    /// `wait_control`
    WaitControl,
    /// `wait_rpc_requests`
    WaitRpcRequests,
    /// `send_rpc`
    SendRpc,
    /// `get_result`
    GetResult,
    /// `ping`
    Ping,
    /// `list_pending`
    ListPending,
    /// `retry`
    Retry,
    /// `cancel`
    Cancel,
    /// `rpc_reply`
    RpcReply,
    /// `send_control`
    SendControl,
    /// `report_status`
    ReportStatus,
    /// `list_zones`
    ListZones,
    /// `zone_acquire`
    ZoneAcquire,
    /// `zone_release`
    ZoneRelease,
    /// `get_zone_snapshot`
    GetZoneSnapshot,
    /// `report_conflict`
    ReportConflict,
    /// `list_conflicts`
    ListConflicts,
    /// `risk_zones`
    RiskZones,
    /// `mux_digest`
    MuxDigest,
    /// `mux_watch`
    MuxWatch,
    /// `watch_cancel`
    WatchCancel,
    /// `zone_request`
    ZoneRequest,
    /// `zone_steal`
    ZoneSteal,
    /// `task_list`
    TaskList,
    /// `task_show`
    TaskShow,
    /// `task_cancel`
    TaskCancel,
    /// `task_force`
    TaskForce,
    /// `approval_decide`
    ApprovalDecide,
}

/// The tool's position in the catalogue.
pub open spec fn tool_pos(t: Tool) -> int {
    match t {
        Tool::MuxInit => 0,
        Tool::MuxStatus => 1,
        Tool::Topology => 2,
        Tool::WaitEvents => 3,
        Tool::MuxPull => 4,
        Tool::WaitControl => 5,
        Tool::WaitRpcRequests => 6,
        Tool::SendRpc => 7,
        Tool::GetResult => 8,
        Tool::Ping => 9,
        Tool::ListPending => 10,
        Tool::Retry => 11,
        Tool::Cancel => 12,
        Tool::RpcReply => 13,
        Tool::SendControl => 14,
        Tool::ReportStatus => 15,
        Tool::ListZones => 16,
        Tool::ZoneAcquire => 17,
        Tool::ZoneRelease => 18,
        Tool::GetZoneSnapshot => 19,
        Tool::ReportConflict => 20,
        Tool::ListConflicts => 21,
        Tool::RiskZones => 22,
        Tool::MuxDigest => 23,
        Tool::MuxWatch => 24,
        Tool::WatchCancel => 25,
        Tool::ZoneRequest => 26,
        Tool::ZoneSteal => 27,
        Tool::TaskList => 28,
        Tool::TaskShow => 29,
        Tool::TaskCancel => 30,
        Tool::TaskForce => 31,
        Tool::ApprovalDecide => 32,
    }
}

/// The tool at position `i` of the catalogue.
fn tool_at(i: usize) -> (r: Tool)
    requires
        i < 33,
    ensures
        tool_pos(r) == i,
{
    if i == 0 {
        Tool::MuxInit
    } else if i == 1 {
        Tool::MuxStatus
    } else if i == 2 {
        Tool::Topology
    } else if i == 3 {
        Tool::WaitEvents
    } else if i == 4 {
        Tool::MuxPull
    } else if i == 5 {
        Tool::WaitControl
    } else if i == 6 {
        Tool::WaitRpcRequests
    } else if i == 7 {
        Tool::SendRpc
    } else if i == 8 {
        Tool::GetResult
    } else if i == 9 {
        Tool::Ping
    } else if i == 10 {
        Tool::ListPending
    } else if i == 11 {
        Tool::Retry
    } else if i == 12 {
        Tool::Cancel
    } else if i == 13 {
        Tool::RpcReply
    } else if i == 14 {
        Tool::SendControl
    } else if i == 15 {
        Tool::ReportStatus
    } else if i == 16 {
        Tool::ListZones
    } else if i == 17 {
        Tool::ZoneAcquire
    } else if i == 18 {
        Tool::ZoneRelease
    } else if i == 19 {
        Tool::GetZoneSnapshot
    } else if i == 20 {
        Tool::ReportConflict
    } else if i == 21 {
        Tool::ListConflicts
    } else if i == 22 {
        Tool::RiskZones
    } else if i == 23 {
        Tool::MuxDigest
    } else if i == 24 {
        Tool::MuxWatch
    } else if i == 25 {
        Tool::WatchCancel
    } else if i == 26 {
        Tool::ZoneRequest
    } else if i == 27 {
        Tool::ZoneSteal
    } else if i == 28 {
        Tool::TaskList
    } else if i == 29 {
        Tool::TaskShow
    } else if i == 30 {
        Tool::TaskCancel
    } else if i == 31 {
        Tool::TaskForce
    } else {
        Tool::ApprovalDecide
    }
}

/// The tool named `name`, or `None` when the catalogue has no such tool
/// (the call is then answered with `unknown tool: ...`).
pub fn tool_of(name: &str) -> (r: Option<Tool>)
    ensures
        match r {
            Some(t) => 0 <= tool_pos(t) < tool_name_seq().len() && tool_name_seq()[tool_pos(t)] == name@,
            None => forall|i: int| 0 <= i < tool_name_seq().len() ==> tool_name_seq()[i] != name@,
        },
{
    match tool_index(name) {
        Some(i) => Some(tool_at(i)),
        None => None,
    }
}

/// How a JSON-RPC message is handled.
#[derive(Debug, Clone, Copy, PartialEq, Eq, Structural)]
pub enum McpRoute {
    /// `initialize`: answer with the protocol version and capabilities.
    Initialize,
    /// A notification (or a request that needs no answer): stay silent.
    Silent,
    /// `tools/list`: answer with the catalogue.
    ListTools,
    /// `tools/call`: run the named tool.
    CallTool,
    /// Anything else with an id: `Method not found` (-32601).
    NotFound,
}

pub open spec fn route_of(method: Seq<char>, is_notification: bool) -> McpRoute {
    if method == "initialize"@ {
        McpRoute::Initialize
    } else if method == "notifications/initialized"@ || method == "notifications/cancelled"@
        || method == "notifications/exit"@ {
        McpRoute::Silent
    } else if method == "tools/list"@ {
        McpRoute::ListTools
    } else if method == "tools/call"@ {
        McpRoute::CallTool
    } else if is_notification {
        McpRoute::Silent
    } else {
        McpRoute::NotFound
    }
}

/// Route a JSON-RPC message by its method; `is_notification` when it has no
/// id (or a null one).
pub fn route_message(method: &str, is_notification: bool) -> (r: McpRoute)
    ensures
        r == route_of(method@, is_notification),
{
    if str_eq(method, "initialize") {
        McpRoute::Initialize
    } else if str_eq(method, "notifications/initialized") || str_eq(
        method,
        "notifications/cancelled",
    ) || str_eq(method, "notifications/exit") {
        McpRoute::Silent
    } else if str_eq(method, "tools/list") {
        McpRoute::ListTools
    } else if str_eq(method, "tools/call") {
        McpRoute::CallTool
    } else if is_notification {
        McpRoute::Silent
    } else {
        McpRoute::NotFound
    }
}

/// JSON-RPC error code for an unknown method.
pub const METHOD_NOT_FOUND: i64 = -32601;

/// `Method not found: <method>`.
pub fn method_not_found_message(method: &str) -> (r: String)
    ensures
        r@ == "Method not found: "@ + method@,
{
    let mut m = String::from_str("Method not found: ");
    m.append(method);
    m
}

/// `unknown tool: <name>`.
pub fn unknown_tool_message(name: &str) -> (r: String)
    ensures
        r@ == "unknown tool: "@ + name@,
{
    let mut m = String::from_str("unknown tool: ");
    m.append(name);
    m
}

/// The error for a role other than master or slave, given the role already
/// quoted.
pub fn invalid_role_message(quoted: &str) -> (r: String)
    ensures
        r@ == "mux_init: invalid role "@ + quoted@ + " (expected master|slave)"@,
{
    let mut m = String::from_str("mux_init: invalid role ");
    m.append(quoted);
    m.append(" (expected master|slave)");
    m
}

pub open spec fn role_error_text(role: Option<Seq<char>>) -> Option<Seq<char>> {
    match role {
        None => Some("mux_init: role is required ('master' or 'slave')"@),
        Some(r) => if r == "master"@ || r == "slave"@ {
            None
        } else {
            Some("mux_init: invalid role "@ + debug_quoted(r) + " (expected master|slave)"@)
        },
    }
}

/// Check the `role` argument of `mux_init` (absent or empty counts as
/// missing): `master` and `slave` pass, anything else is an error naming it.
pub fn check_role(role: Option<&str>) -> (r: Result<(), String>)
    ensures
        match role_error_text(match role {
            Some(s) => if s@.len() > 0 {
                Some(s@)
            } else {
                None
            },
            None => None,
        }) {
            None => r is Ok,
            Some(m) => r matches Err(e) && e@ == m,
        },
{
    let given = match role {
        Some(s) => if s.unicode_len() > 0 {
            Some(s)
        } else {
            None
        },
        None => None,
    };
    match given {
        None => Err(String::from_str("mux_init: role is required ('master' or 'slave')")),
        Some(r) => {
            if str_eq(r, "master") || str_eq(r, "slave") {
                Ok(())
            } else {
                let q = debug_quote(r);
                Err(invalid_role_message(q.as_str()))
            }
        },
    }
}

} // verus!
