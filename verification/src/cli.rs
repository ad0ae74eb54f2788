//! Command line of the server binary and the liveness watchdog's verdict.
use vstd::prelude::*;
use crate::text::{str_eq, views};
use crate::wake::{debug_quote, debug_quoted};

verus! {

/// What the command line asks for.
#[derive(Debug)]
pub struct Cli {
    /// `--role manager|executor`: auto-init role.
    pub role: Option<String>,
    /// `--session-id`.
    pub session_id: Option<String>,
    /// `--config` / `--config-dir`.
    pub config_dir: Option<String>,
    /// `--root`.
    pub root: Option<String>,
    /// `--help` / `-h` was given (parsing stops there).
    pub help: bool,
    /// Arguments not understood, in order (reported, then skipped).
    pub unknown: Vec<String>,
}

pub struct CliView {
    pub role: Option<Seq<char>>,
    pub session_id: Option<Seq<char>>,
    pub config_dir: Option<Seq<char>>,
    pub root: Option<Seq<char>>,
    pub help: bool,
    pub unknown: Seq<Seq<char>>,
}

pub open spec fn opt_string_view(o: Option<String>) -> Option<Seq<char>> {
    match o {
        Some(s) => Some(s@),
        None => None,
    }
}

impl View for Cli {
    type V = CliView;

    open spec fn view(&self) -> CliView {
        CliView {
            role: opt_string_view(self.role),
            session_id: opt_string_view(self.session_id),
            config_dir: opt_string_view(self.config_dir),
            root: opt_string_view(self.root),
            help: self.help,
            unknown: views(self.unknown@),
        }
    }
}

/// The argument at `i`, if there is one.
pub open spec fn arg_at(args: Seq<Seq<char>>, i: int) -> Option<Seq<char>> {
    if 0 <= i < args.len() {
        Some(args[i])
    } else {
        None
    }
}

/// The command line read from position `i` on, over what was read before.
/// An option takes the next argument as its value (none when the line ends
/// there); `--help` stops reading.
pub open spec fn parse_from(args: Seq<Seq<char>>, i: int, acc: CliView) -> CliView
    decreases args.len() + 2 - i,
{
    if i < 0 || i >= args.len() {
        acc
    } else {
        let a = args[i];
        if a == "--role"@ {
            parse_from(args, i + 2, CliView { role: arg_at(args, i + 1), ..acc })
        } else if a == "--session-id"@ {
            parse_from(args, i + 2, CliView { session_id: arg_at(args, i + 1), ..acc })
        } else if a == "--config"@ || a == "--config-dir"@ {
            parse_from(args, i + 2, CliView { config_dir: arg_at(args, i + 1), ..acc })
        } else if a == "--root"@ {
            parse_from(args, i + 2, CliView { root: arg_at(args, i + 1), ..acc })
        } else if a == "--help"@ || a == "-h"@ {
            CliView { help: true, ..acc }
        } else {
            parse_from(args, i + 1, CliView { unknown: acc.unknown.push(a), ..acc })
        }
    }
}

pub open spec fn empty_cli() -> CliView {
    CliView {
        role: None,
        session_id: None,
        config_dir: None,
        root: None,
        help: false,
        unknown: Seq::empty(),
    }
}

fn arg_at_exec(args: &Vec<String>, i: usize) -> (r: Option<String>)
    ensures
        opt_string_view(r) == arg_at(views(args@), i as int),
{
    if i < args.len() {
        Some(args[i].clone())
    } else {
        None
    }
}

/// Read the command line (the arguments after the program name).
pub fn parse_args(args: &Vec<String>) -> (r: Cli)
    ensures
        r@ == parse_from(views(args@), 0, empty_cli()),
{
    let ghost av = views(args@);
    let mut cli = Cli {
        role: None,
        session_id: None,
        config_dir: None,
        root: None,
        help: false,
        unknown: Vec::new(),
    };
    proof {
        assert(cli@.unknown =~= Seq::<Seq<char>>::empty());
        assert(cli@ == empty_cli());
    }
    let mut i: usize = 0;
    while i < args.len()
        invariant
            av == views(args@),
            parse_from(av, i as int, cli@) == parse_from(av, 0, empty_cli()),
            !cli.help,
        decreases args@.len() - i,
    {
        let a = args[i].as_str();
        let ghost start = cli@;
        proof {
            assert(av[i as int] == a@);
        }
        if str_eq(a, "--role") {
            cli.role = arg_at_exec(args, i + 1);
        } else if str_eq(a, "--session-id") {
            cli.session_id = arg_at_exec(args, i + 1);
        } else if str_eq(a, "--config") || str_eq(a, "--config-dir") {
            cli.config_dir = arg_at_exec(args, i + 1);
        } else if str_eq(a, "--root") {
            cli.root = arg_at_exec(args, i + 1);
        } else if str_eq(a, "--help") || str_eq(a, "-h") {
            let ghost before = cli@;
            cli.help = true;
            proof {
                assert(cli@ == CliView { help: true, ..before });
            }
            return cli;
        } else {
            let ghost before = cli@;
            cli.unknown.push(args[i].clone());
            proof {
                assert(cli@.unknown =~= before.unknown.push(a@));
                assert(cli@ == CliView { unknown: before.unknown.push(a@), ..before });
            }
            i = i + 1;
            continue;
        }
        proof {
            assert(parse_from(av, i as int, start) == parse_from(av, i + 2, cli@));
        }
        if args.len() - i < 2 {
            proof {
                assert(parse_from(av, i + 2, cli@) == cli@);
            }
            return cli;
        }
        i = i + 2;
    }
    cli
}

pub open spec fn cli_role_error(role: Seq<char>) -> Option<Seq<char>> {
    if role == "manager"@ || role == "executor"@ {
        None
    } else {
        Some("invalid --role "@ + debug_quoted(role) + " (expected manager|executor)"@)
    }
}

/// The error for an unknown `--role`, given the role already quoted.
pub fn invalid_cli_role_message(quoted: &str) -> (r: String)
    ensures
        r@ == "invalid --role "@ + quoted@ + " (expected manager|executor)"@,
{
    let mut m = String::from_str("invalid --role ");
    m.append(quoted);
    m.append(" (expected manager|executor)");
    m
}

/// Check an auto-init `--role`: `manager` or `executor`.
pub fn check_cli_role(role: &str) -> (r: Result<(), String>)
    ensures
        match cli_role_error(role@) {
            None => r is Ok,
            Some(m) => r matches Err(e) && e@ == m,
        },
{
    if str_eq(role, "manager") || str_eq(role, "executor") {
        Ok(())
    } else {
        let q = debug_quote(role);
        Err(invalid_cli_role_message(q.as_str()))
    }
}

pub open spec fn mesh_role_of(role: Seq<char>) -> Option<Seq<char>> {
    if role == "manager"@ {
        Some("master"@)
    } else if role == "executor"@ {
        Some("slave"@)
    } else {
        None
    }
}

/// The mesh role that an auto-init `--role` stands for: a manager runs the
/// master node, an executor a slave node.
pub fn mesh_role(role: &str) -> (r: Option<&'static str>)
    ensures
        match r {
            Some(m) => mesh_role_of(role@) == Some(m@),
            None => mesh_role_of(role@) is None,
        },
{
    if str_eq(role, "manager") {
        Some("master")
    } else if str_eq(role, "executor") {
        Some("slave")
    } else {
        None
    }
}

/// How long the broker link may stay down before the node gives up: four
/// heartbeat timeouts, but at least a minute (milliseconds).
pub open spec fn link_grace(hb_timeout: u64) -> int {
    if 4 * hb_timeout > 60_000 {
        4 * hb_timeout
    } else {
        60_000
    }
}

/// The watchdog's verdict on the broker link: exit when it has been down
/// for longer than the grace period (`link_grace`) since its last change.
pub fn link_down_too_long(connected: bool, last_change: u64, now: u64, hb_timeout: u64) -> (r: bool)
    ensures
        r == (!connected && now - last_change > link_grace(hb_timeout)),
{
    if connected || now < last_change {
        return false;
    }
    let elapsed = now - last_change;
    let grace: u64 = match hb_timeout.checked_mul(4) {
        Some(g) => if g > 60_000 {
            g
        } else {
            60_000
        },
        None => u64::MAX,
    };
    proof {
        if 4 * hb_timeout > u64::MAX {
            assert(elapsed <= u64::MAX);
        }
    }
    elapsed > grace
}

} // verus!
