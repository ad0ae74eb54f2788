use agent_mux::cli::{check_cli_role, link_down_too_long, mesh_role, parse_args};
use agent_mux::config::{
    configured_root, default_root, expand, file_name, project_root_for, resolve_session_id,
    set_default_root, strip_home, topic_root_for, wake_setting, DefaultRoot,
};
use agent_mux::mcp::{check_role, route_message, tool_index, tool_names, tool_of, McpRoute, Tool};
use agent_mux::topics::{route_topic, subscriptions, topic, Inbound};
use agent_mux::wake::{
    env_preference, parse_wake_preference, tmux_outcome, wake_plan, pane_override, pane_source, PaneSource, TmuxWake,
    WakePlan, WakePreference,
};

fn strings(v: &[&str]) -> Vec<String> {
    v.iter().map(|s| s.to_string()).collect()
}

#[test]
fn parse_preferences() {
    assert_eq!(parse_wake_preference("mcp").unwrap(), WakePreference::Mcp);
    assert_eq!(parse_wake_preference("mcp_notify").unwrap(), WakePreference::Mcp);
    assert_eq!(parse_wake_preference("tmux").unwrap(), WakePreference::Tmux);
    assert_eq!(parse_wake_preference("none").unwrap(), WakePreference::Off);
    assert_eq!(parse_wake_preference("off").unwrap(), WakePreference::Off);
    assert!(parse_wake_preference("carrier-pigeon").is_err());
}

fn plan_name(plan: Result<WakePlan, String>, pane: Option<&str>) -> Result<Option<&'static str>, String> {
    match plan? {
        WakePlan::Off => Ok(None),
        WakePlan::Mcp { .. } => Ok(Some("mcp")),
        WakePlan::Tmux { forced } => tmux_outcome(forced, pane.map(|p| p.to_string())).map(|_| Some("tmux")),
    }
}

#[test]
fn resolution_priority_mcp_over_tmux_over_error() {
    assert_eq!(plan_name(wake_plan(None, Some(""), None, true), None).unwrap(), Some("mcp"));
    assert_eq!(plan_name(wake_plan(Some(WakePreference::Tmux), Some(""), None, true), None).unwrap(), Some("mcp"));
    assert_eq!(plan_name(wake_plan(Some(WakePreference::Mcp), Some(""), None, true), None).unwrap(), Some("mcp"));
    assert_eq!(plan_name(wake_plan(None, Some(""), None, false), Some("%1")).unwrap(), Some("tmux"));
    assert!(plan_name(wake_plan(None, Some(""), None, false), None).is_err());
    assert!(plan_name(wake_plan(Some(WakePreference::Off), Some(""), None, true), None).unwrap().is_none());
    assert_eq!(plan_name(wake_plan(Some(WakePreference::Mcp), Some(""), None, false), None).unwrap(), Some("mcp"));
    assert!(plan_name(wake_plan(Some(WakePreference::Tmux), Some(""), None, false), None).is_err());
}

#[test]
fn wake_preference_edges() {
    assert_eq!(parse_wake_preference("  MCP-Notify \n").unwrap(), WakePreference::Mcp);
    assert_eq!(parse_wake_preference("Disabled").unwrap(), WakePreference::Off);
    assert_eq!(
        parse_wake_preference("Pigeon").unwrap_err(),
        "invalid wake channel \"pigeon\" (expected \"mcp\" | \"tmux\" | \"none\")"
    );
    assert_eq!(env_preference(None).unwrap(), None);
    assert_eq!(env_preference(Some("   ")).unwrap(), None);
    assert_eq!(env_preference(Some("tmux")).unwrap(), Some(WakePreference::Tmux));
    assert!(env_preference(Some("x")).is_err());
    // the environment beats the config file; a bad config value is an error
    assert!(matches!(wake_plan(None, Some("none"), Some("mcp"), true), Ok(WakePlan::Off)));
    assert!(wake_plan(None, None, Some("bogus"), true).is_err());
    assert!(matches!(
        wake_plan(Some(WakePreference::Tmux), None, None, true),
        Ok(WakePlan::Mcp { overridden: Some(WakePreference::Tmux), unconfirmed: false })
    ));
    assert_eq!(
        tmux_outcome(true, None).unwrap_err(),
        "wake=tmux requested but no tmux pane was detected (AGENT_MUX_NO_TMUX is set, or the TUI is not inside tmux)"
    );
    assert_eq!(pane_override(Some("  %3 ")), Some("%3".to_string()));
    assert_eq!(pane_override(Some("   ")), None);
}

#[test]
fn tmux_wake_debounces() {
    let mut w = TmuxWake::new("%1".to_string());
    assert!(w.should_wake(10_000));
    assert!(!w.should_wake(11_000));
    assert!(w.should_wake(11_500));
    assert_eq!(w.last, 11_500);
    assert!(!w.should_wake(5));
    assert_eq!(w.pane, "%1");
}

#[test]
fn config_paths() {
    assert_eq!(expand("~", Some("/home/u")), "/home/u");
    assert_eq!(expand("~/mqtt", Some("/home/u")), "/home/u/mqtt");
    assert_eq!(expand("~/mqtt", Some("/home/u/")), "/home/u/mqtt");
    assert_eq!(expand("~//abs", Some("/home/u")), "/abs");
    assert_eq!(expand("~/mqtt", None), "~/mqtt");
    assert_eq!(expand("/etc/x", Some("/home/u")), "/etc/x");
    assert_eq!(strip_home("/home/u/work/proj", Some("/home/u")), Some("work/proj".to_string()));
    assert_eq!(strip_home("/home/u", Some("/home/u/")), None);
    assert_eq!(strip_home("/srv/x", Some("/home/u")), None);
    assert_eq!(strip_home("/home/u/./a//b/", Some("/home/u")), Some("a/b".to_string()));
    assert_eq!(strip_home("/home/u/a", None), None);
    assert_eq!(file_name("/srv/proj/"), Some("proj".to_string()));
    assert_eq!(file_name("/"), None);
    assert_eq!(file_name("a/.."), None);
    assert_eq!(project_root_for("/srv/proj", "/srv/proj", Some("/home/u")), Some("proj".to_string()));
    assert_eq!(project_root_for("/home/u/p", "/home/u/p", Some("/home/u")), Some("p".to_string()));
    assert_eq!(topic_root_for("~/mqtt", Some("/home/u"), "/home/u/mqtt", Some("/home/u")), "mqtt");
    assert_eq!(topic_root_for("/", None, "/", None), "mqtt");
    assert_eq!(configured_root(Some("/a/b/"), None), Some("a/b".to_string()));
    assert_eq!(configured_root(Some("x"), Some("  ")), Some("x".to_string()));
    assert_eq!(configured_root(Some("x"), Some("/y/")), Some("y".to_string()));
    assert_eq!(configured_root(Some(""), None), None);
    assert_eq!(configured_root(Some("/"), None), None);
    assert_eq!(wake_setting(Some(" tmux ")), Some("tmux".to_string()));
    assert_eq!(wake_setting(Some("  ")), None);
}

#[test]
fn default_root_first_setting_wins() {
    let mut cell = DefaultRoot::new();
    assert_eq!(default_root(&cell), None);
    set_default_root(&mut cell, "/proj/");
    assert_eq!(default_root(&cell), Some("proj"));
    set_default_root(&mut cell, "other");
    assert_eq!(default_root(&cell), Some("proj"));
    set_default_root(&mut cell, "/third/x/");
    assert_eq!(default_root(&cell), Some("proj"));
}

#[test]
fn session_ids_are_never_invented() {
    assert_eq!(resolve_session_id(Some("abc"), Some("env")).unwrap(), "abc");
    assert_eq!(resolve_session_id(Some(""), Some("env")).unwrap(), "env");
    assert_eq!(resolve_session_id(None, Some("env")).unwrap(), "env");
    let err = resolve_session_id(None, Some("")).unwrap_err();
    assert_eq!(
        err,
        "no session id: pass --session-id or set CODEX_THREAD_ID. Ask the agent for its Codex session id; never generate a random one."
    );
}

#[test]
fn mcp_catalogue_and_routing() {
    let names = tool_names();
    assert_eq!(names.len(), 33);
    assert_eq!(names[0], "mux_init");
    assert_eq!(names[22], "risk_zones");
    assert_eq!(names[23], "mux_digest");
    assert_eq!(names[32], "approval_decide");
    for (i, n) in names.iter().enumerate() {
        assert_eq!(tool_index(n), Some(i));
    }
    assert_eq!(tool_index("mux_digest"), Some(23));
    assert_eq!(tool_index("may_i_touch"), None);
    assert_eq!(route_message("initialize", false), McpRoute::Initialize);
    assert_eq!(route_message("tools/list", false), McpRoute::ListTools);
    assert_eq!(route_message("tools/call", false), McpRoute::CallTool);
    assert_eq!(route_message("notifications/initialized", true), McpRoute::Silent);
    assert_eq!(route_message("bogus", true), McpRoute::Silent);
    assert_eq!(route_message("bogus", false), McpRoute::NotFound);
    assert!(check_role(Some("master")).is_ok());
    assert!(check_role(Some("slave")).is_ok());
    assert_eq!(check_role(None).unwrap_err(), "mux_init: role is required ('master' or 'slave')");
    assert_eq!(check_role(Some("")).unwrap_err(), "mux_init: role is required ('master' or 'slave')");
    assert_eq!(check_role(Some("boss")).unwrap_err(), "mux_init: invalid role \"boss\" (expected master|slave)");
}

#[test]
fn topics_route_back() {
    assert_eq!(topic("root", &strings(&["rpc", "req", "s1"])), "root/rpc/req/s1");
    assert_eq!(topic("root", &strings(&["hb", "", "s1"])), "root/hb/s1");
    assert!(matches!(route_topic("root/hb/s1", "root", "me", true), Inbound::Hb(s) if s == "s1"));
    assert!(matches!(route_topic("root/registry/s2", "root", "me", true), Inbound::Registry(s) if s == "s2"));
    assert!(matches!(route_topic("root/ctrl/me", "root", "me", false), Inbound::Ctrl));
    assert!(matches!(route_topic("root/ctrl/other", "root", "me", false), Inbound::Ignored));
    assert!(matches!(route_topic("root/ctrl_ack/s", "root", "me", false), Inbound::Ignored));
    assert!(matches!(route_topic("root/ctrl_ack/s", "root", "me", true), Inbound::CtrlAck(s) if s == "s"));
    assert!(matches!(route_topic("root/rpc/req/me", "root", "me", false), Inbound::RpcRequest));
    assert!(matches!(route_topic("root/rpc/resp/me", "root", "me", false), Inbound::RpcResponse));
    assert!(matches!(route_topic("root/watch/evt/me", "root", "me", false), Inbound::WatchEvent));
    assert!(matches!(route_topic("root/watch/reg", "root", "me", true), Inbound::WatchReg));
    assert!(matches!(route_topic("root/master", "root", "me", false), Inbound::Master));
    assert!(matches!(route_topic("root/zones", "root", "me", false), Inbound::Zones));
    assert!(matches!(route_topic("other/zones", "root", "me", false), Inbound::Ignored));
    // a root of several pieces never matches the first piece of a topic
    assert!(matches!(route_topic("a/b/zones", "a/b", "me", false), Inbound::Ignored));
    assert_eq!(subscriptions("r", "s", true), strings(&["r/#"]));
    assert_eq!(
        subscriptions("r", "s", false),
        strings(&["r/ctrl/s", "r/rpc/req/s", "r/rpc/resp/s", "r/master", "r/zones", "r/watch/evt/s"])
    );
}

#[test]
fn command_line() {
    let c = parse_args(&strings(&["--role", "manager", "--session-id", "abc", "--config-dir", "/c", "--root", "r"]));
    assert_eq!(c.role.as_deref(), Some("manager"));
    assert_eq!(c.session_id.as_deref(), Some("abc"));
    assert_eq!(c.config_dir.as_deref(), Some("/c"));
    assert_eq!(c.root.as_deref(), Some("r"));
    assert!(!c.help);
    let c = parse_args(&strings(&["--bogus", "-h", "--role", "x"]));
    assert!(c.help);
    assert_eq!(c.unknown, strings(&["--bogus"]));
    assert_eq!(c.role, None);
    let c = parse_args(&strings(&["--role"]));
    assert_eq!(c.role, None);
    assert!(check_cli_role("executor").is_ok());
    assert_eq!(check_cli_role("boss").unwrap_err(), "invalid --role \"boss\" (expected manager|executor)");
    assert!(!link_down_too_long(true, 0, 1_000_000, 15_000));
    assert!(!link_down_too_long(false, 0, 60_000, 15_000));
    assert!(link_down_too_long(false, 0, 60_001, 15_000));
    assert!(!link_down_too_long(false, 0, 80_000, 20_000));
    assert!(link_down_too_long(false, 0, 80_001, 20_000));
}

#[test]
fn cli_roles_map_to_mesh_roles() {
    assert_eq!(mesh_role("manager"), Some("master"));
    assert_eq!(mesh_role("executor"), Some("slave"));
    assert_eq!(mesh_role("master"), None);
    assert_eq!(mesh_role(""), None);
}

#[test]
fn explicit_pane_wins_over_no_tmux() {
    assert!(matches!(pane_source(Some(" %1 "), true), PaneSource::Given(p) if p == "%1"));
    assert!(matches!(pane_source(Some("%2"), false), PaneSource::Given(p) if p == "%2"));
    assert!(matches!(pane_source(None, true), PaneSource::Disabled));
    assert!(matches!(pane_source(Some("  "), true), PaneSource::Disabled));
    assert!(matches!(pane_source(None, false), PaneSource::Detect));
}

#[test]
fn each_listed_tool_name_reaches_its_own_tool() {
    assert_eq!(tool_of("mux_init"), Some(Tool::MuxInit));
    assert_eq!(tool_of("risk_zones"), Some(Tool::RiskZones));
    assert_eq!(tool_of("mux_digest"), Some(Tool::MuxDigest));
    assert_eq!(tool_of("approval_decide"), Some(Tool::ApprovalDecide));
    assert_eq!(tool_of("zone_steal"), Some(Tool::ZoneSteal));
    assert_eq!(tool_of("bogus"), None);
    assert_eq!(tool_of(""), None);
    for n in tool_names() {
        assert!(tool_of(&n).is_some(), "{n}");
    }
}

#[test]
fn wake_names_parse_as_their_normal_form() {
    for raw in [" MCP ", "Mcp_Notify", "\tTMUX\n", "Off", "DISABLED", " carrier-Pigeon "] {
        let normal = raw.trim().to_ascii_lowercase();
        assert_eq!(parse_wake_preference(raw), parse_wake_preference(&normal), "{raw}");
    }
    assert_eq!(parse_wake_preference(" MCP "), Ok(WakePreference::Mcp));
}
