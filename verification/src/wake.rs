//! Wake channels: the push hint that tells an idle agent "new mesh messages
//! arrived: call `mux_pull()`". Only the hint travels; the messages stay
//! queued in the node.
//!
//! Two channels exist: MCP notify (a JSON-RPC notification on the MCP
//! stdout) and tmux (`send-keys` into the agent's pane). Resolution priority,
//! unless notifications are explicitly disabled: MCP notify when the client
//! declared support, then an explicit preference, then tmux when a pane is
//! found, else a hard error — an agent that supports neither channel cannot
//! silently run without notifications.
use vstd::prelude::*;
use crate::text::{ascii_lower, str_eq, to_ascii_lower, trim_str, trim_ws};

verus! {

/// Hint text shared by every channel.
pub const WAKE_TEXT: &'static str = "[mux] new message arrived: call mux_pull to view and handle it.";

/// Minimum spacing of two wakes on one channel, in milliseconds.
pub const DEBOUNCE_MS: u64 = 1500;

/// A push channel that can wake an idle agent.
pub trait Wake {
    /// Short channel name for identity/logs (`"mcp"` | `"tmux"`).
    fn name(&self) -> &'static str;

    /// Fire a (debounced) wake hint. Never blocks the caller.
    fn wake(&self);
}

/// Explicit wake-channel preference (`mux_init(wake=...)` argument, then
/// `AGENT_MUX_WAKE`, then the `wake` field of `mqtt.conf`).
#[derive(Debug, Clone, Copy, PartialEq, Eq, Structural)]
pub enum WakePreference {
    Mcp,
    Tmux,
    Off,
}

/// The preference a lower-cased, trimmed name selects.
pub open spec fn wake_pref_named(t: Seq<char>) -> Option<WakePreference> {
    if t == "mcp"@ || t == "mcp_notify"@ || t == "mcp-notify"@ {
        Some(WakePreference::Mcp)
    } else if t == "tmux"@ {
        Some(WakePreference::Tmux)
    } else if t == "none"@ || t == "off"@ || t == "disabled"@ {
        Some(WakePreference::Off)
    } else {
        None
    }
}

/// What `format!("{:?}", s)` writes for a string `s`: the string quoted,
/// with Rust's debug escapes.
pub uninterp spec fn debug_quoted(s: Seq<char>) -> Seq<char>;

/// The string in Rust debug notation (`format!("{:?}", s)`).
#[verifier::external_body]
pub(crate) fn debug_quote(s: &str) -> (r: String)
    ensures
        r@ == debug_quoted(s@),
{
    format!("{:?}", s)
}

pub open spec fn invalid_wake_text(quoted: Seq<char>) -> Seq<char> {
    "invalid wake channel "@ + quoted + " (expected \"mcp\" | \"tmux\" | \"none\")"@
}

/// The error for an unknown channel name, given the name already quoted.
pub fn invalid_wake_message(quoted: &str) -> (r: String)
    ensures
        r@ == invalid_wake_text(quoted@),
{
    let mut m = String::from_str("invalid wake channel ");
    m.append(quoted);
    m.append(" (expected \"mcp\" | \"tmux\" | \"none\")");
    m
}

/// The name as it is matched: trimmed, ASCII lower case.
pub open spec fn wake_key(s: Seq<char>) -> Seq<char> {
    ascii_lower(trim_ws(s))
}

/// The preference `s` selects, or the error naming it.
pub open spec fn parsed_wake(s: Seq<char>, r: Result<WakePreference, String>) -> bool {
    match wake_pref_named(wake_key(s)) {
        Some(p) => r == Ok::<WakePreference, String>(p),
        None => r matches Err(m) && m@ == invalid_wake_text(debug_quoted(wake_key(s))),
    }
}

/// Parse a wake-channel name: `mcp` (also `mcp_notify`, `mcp-notify`),
/// `tmux`, or `none` (also `off`, `disabled`), ignoring case and
/// surrounding white space.
pub fn parse_wake_preference(s: &str) -> (r: Result<WakePreference, String>)
    ensures
        parsed_wake(s@, r),
{
    let key = to_ascii_lower(trim_str(s).as_str());
    let k = key.as_str();
    proof {
        reveal_strlit("mcp");
        reveal_strlit("mcp_notify");
        reveal_strlit("mcp-notify");
        reveal_strlit("tmux");
        reveal_strlit("none");
        reveal_strlit("off");
        reveal_strlit("disabled");
    }
    if str_eq(k, "mcp") || str_eq(k, "mcp_notify") || str_eq(k, "mcp-notify") {
        Ok(WakePreference::Mcp)
    } else if str_eq(k, "tmux") {
        Ok(WakePreference::Tmux)
    } else if str_eq(k, "none") || str_eq(k, "off") || str_eq(k, "disabled") {
        Ok(WakePreference::Off)
    } else {
        let q = debug_quote(k);
        Err(invalid_wake_message(q.as_str()))
    }
}

/// The preference in `AGENT_MUX_WAKE` (its value read at the edge): unset
/// or blank means none; otherwise it must parse.
pub fn env_preference(raw: Option<&str>) -> (r: Result<Option<WakePreference>, String>)
    ensures
        match raw {
            None => r == Ok::<Option<WakePreference>, String>(None),
            Some(s) => if trim_ws(s@).len() == 0 {
                r == Ok::<Option<WakePreference>, String>(None)
            } else {
                match wake_pref_named(wake_key(s@)) {
                    Some(p) => r == Ok::<Option<WakePreference>, String>(Some(p)),
                    None => r matches Err(m) && m@ == invalid_wake_text(debug_quoted(wake_key(s@))),
                }
            },
        },
{
    match raw {
        None => Ok(None),
        Some(s) => {
            if trim_str(s).unicode_len() == 0 {
                Ok(None)
            } else {
                match parse_wake_preference(s) {
                    Ok(p) => Ok(Some(p)),
                    Err(e) => Err(e),
                }
            }
        },
    }
}

/// The first stage of channel resolution.
#[derive(Debug)]
pub enum WakePlan {
    /// `wake=none`: notifications are explicitly disabled.
    Off,
    /// MCP notify. `overridden` is the explicit preference it overrode
    /// because the client declared MCP-notify support; `unconfirmed` means it
    /// was forced although the client did not declare support.
    Mcp { overridden: Option<WakePreference>, unconfirmed: bool },
    /// tmux, if a pane can be found; `forced` when `wake=tmux` asked for it.
    Tmux { forced: bool },
}

/// The explicit preference: the argument, else the environment, else the
/// config file; an unparsable environment or config value is an error.
pub open spec fn preference_of(
    arg_pref: Option<WakePreference>,
    env_raw: Option<Seq<char>>,
    config_wake: Option<Seq<char>>,
) -> Result<Option<WakePreference>, Seq<char>> {
    match arg_pref {
        Some(p) => Ok(Some(p)),
        None => {
            let env_named = match env_raw {
                None => Ok(None),
                Some(s) => if trim_ws(s).len() == 0 {
                    Ok(None)
                } else {
                    match wake_pref_named(wake_key(s)) {
                        Some(p) => Ok(Some(p)),
                        None => Err(invalid_wake_text(debug_quoted(wake_key(s)))),
                    }
                },
            };
            match env_named {
                Err(m) => Err(m),
                Ok(Some(p)) => Ok(Some(p)),
                Ok(None) => match config_wake {
                    None => Ok(None),
                    Some(c) => match wake_pref_named(wake_key(c)) {
                        Some(p) => Ok(Some(p)),
                        None => Err(invalid_wake_text(debug_quoted(wake_key(c)))),
                    },
                },
            }
        },
    }
}

/// The plan for a given explicit preference and client capability.
pub open spec fn plan_for(pref: Option<WakePreference>, client_supports_notify: bool) -> WakePlan {
    if pref == Some(WakePreference::Off) {
        WakePlan::Off
    } else if client_supports_notify {
        WakePlan::Mcp { overridden: pref, unconfirmed: false }
    } else {
        match pref {
            Some(WakePreference::Mcp) => WakePlan::Mcp { overridden: None, unconfirmed: true },
            Some(WakePreference::Tmux) => WakePlan::Tmux { forced: true },
            _ => WakePlan::Tmux { forced: false },
        }
    }
}

pub open spec fn opt_view(o: Option<&str>) -> Option<Seq<char>> {
    match o {
        Some(s) => Some(s@),
        None => None,
    }
}

/// Decide the wake channel: `wake=none` disables notifications; MCP notify
/// always wins when the client declared support; otherwise an explicit
/// `mcp` forces MCP notify, and anything else asks for tmux. `env_raw` is
/// the value of `AGENT_MUX_WAKE`, `config_wake` the `wake` field of
/// `mqtt.conf`.
pub fn wake_plan(
    arg_pref: Option<WakePreference>,
    env_raw: Option<&str>,
    config_wake: Option<&str>,
    client_supports_notify: bool,
) -> (r: Result<WakePlan, String>)
    ensures
        match preference_of(arg_pref, opt_view(env_raw), opt_view(config_wake)) {
            Err(m) => r matches Err(e) && e@ == m,
            Ok(p) => r matches Ok(plan) && plan == plan_for(p, client_supports_notify),
        },
{
    let pref = match arg_pref {
        Some(p) => Some(p),
        None => match env_preference(env_raw) {
            Err(e) => {
                return Err(e);
            },
            Ok(Some(p)) => Some(p),
            Ok(None) => match config_wake {
                Some(s) => match parse_wake_preference(s) {
                    Ok(p) => Some(p),
                    Err(e) => {
                        return Err(e);
                    },
                },
                None => None,
            },
        },
    };
    let off = match pref {
        Some(WakePreference::Off) => true,
        _ => false,
    };
    if off {
        return Ok(WakePlan::Off);
    }
    if client_supports_notify {
        return Ok(WakePlan::Mcp { overridden: pref, unconfirmed: false });
    }
    match pref {
        Some(WakePreference::Mcp) => Ok(WakePlan::Mcp { overridden: None, unconfirmed: true }),
        Some(WakePreference::Tmux) => Ok(WakePlan::Tmux { forced: true }),
        _ => Ok(WakePlan::Tmux { forced: false }),
    }
}

pub open spec fn tmux_missing_text() -> Seq<char> {
    "wake=tmux requested but no tmux pane was detected (AGENT_MUX_NO_TMUX is set, or the TUI is not inside tmux)"@
}

pub open spec fn no_channel_text() -> Seq<char> {
    "no wake channel available: this agent does not declare MCP-notify support (initialize capabilities.notify / capabilities.agentMuxNotify) and no tmux pane was detected. Run inside tmux, enable MCP notify in your agent, or set AGENT_MUX_WAKE=none to explicitly disable notifications"@
}

/// The end of a tmux plan: the detected pane, or the hard error (worded for
/// a forced `wake=tmux` or for the default fallback).
pub fn tmux_outcome(forced: bool, pane: Option<String>) -> (r: Result<String, String>)
    ensures
        match pane {
            Some(p) => r == Ok::<String, String>(p),
            None => r matches Err(m) && m@ == (if forced {
                tmux_missing_text()
            } else {
                no_channel_text()
            }),
        },
{
    match pane {
        Some(p) => Ok(p),
        None => if forced {
            Err(
                String::from_str(
                    "wake=tmux requested but no tmux pane was detected (AGENT_MUX_NO_TMUX is set, or the TUI is not inside tmux)",
                ),
            )
        } else {
            Err(
                String::from_str(
                    "no wake channel available: this agent does not declare MCP-notify support (initialize capabilities.notify / capabilities.agentMuxNotify) and no tmux pane was detected. Run inside tmux, enable MCP notify in your agent, or set AGENT_MUX_WAKE=none to explicitly disable notifications",
                ),
            )
        },
    }
}

/// The debounce test of a wake channel: at least `DEBOUNCE_MS` milliseconds
/// since the last fired wake (a clock that went backwards never passes).
pub fn debounce_ready(last: u64, now: u64) -> (r: bool)
    ensures
        r == (now - last >= DEBOUNCE_MS),
{
    now.saturating_sub(last) >= DEBOUNCE_MS
}

/// The tmux wake channel: the pane to inject into and the time of the last
/// fired wake (milliseconds since the epoch, for debounce).
pub struct TmuxWake {
    pub pane: String,
    pub last: u64,
}

impl TmuxWake {
    pub fn new(pane: String) -> (r: TmuxWake)
        ensures
            r.pane == pane,
            r.last == 0,
    {
        TmuxWake { pane, last: 0 }
    }

    /// Should a wake at `now` fire? When it does, `now` becomes the last
    /// wake; otherwise nothing changes.
    pub fn should_wake(&mut self, now: u64) -> (r: bool)
        ensures
            r == (now - old(self).last >= DEBOUNCE_MS),
            r ==> final(self).last == now,
            !r ==> final(self).last == old(self).last,
            final(self).pane == old(self).pane,
    {
        if debounce_ready(self.last, now) {
            self.last = now;
            true
        } else {
            false
        }
    }
}

/// A pane named explicitly (`mux_init(tmux_pane=...)`): trimmed, and only
/// when something remains.
pub fn pane_override(p: Option<&str>) -> (r: Option<String>)
    ensures
        match p {
            Some(s) => if trim_ws(s@).len() > 0 {
                r matches Some(x) && x@ == trim_ws(s@)
            } else {
                r is None
            },
            None => r is None,
        },
{
    match p {
        Some(s) => {
            let t = trim_str(s);
            if t.unicode_len() > 0 {
                Some(t)
            } else {
                None
            }
        },
        None => None,
    }
}

/// Where the agent's tmux pane comes from.
#[derive(Debug)]
pub enum PaneSource {
    /// The pane named explicitly.
    Given(String),
    /// Auto-detection is switched off (`AGENT_MUX_NO_TMUX`) and no pane was
    /// named.
    Disabled,
    /// Detect the pane from the process tree.
    Detect,
}

/// Choose where the pane comes from: an explicit pane (trimmed, non-empty)
/// always wins, even when `AGENT_MUX_NO_TMUX` is set; otherwise that flag
/// switches detection off.
pub fn pane_source(override_pane: Option<&str>, no_tmux: bool) -> (r: PaneSource)
    ensures
        match override_pane {
            Some(s) if trim_ws(s@).len() > 0 => r matches PaneSource::Given(x) && x@ == trim_ws(s@),
            _ => if no_tmux {
                r is Disabled
            } else {
                r is Detect
            },
        },
{
    match pane_override(override_pane) {
        Some(p) => PaneSource::Given(p),
        None => if no_tmux {
            PaneSource::Disabled
        } else {
            PaneSource::Detect
        },
    }
}

} // verus!
