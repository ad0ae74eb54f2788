use agent_mux::conflicts::{risk_zones, Conflict};
use agent_mux::registry::{Peer, PeerInfo, Slot};
use agent_mux::state::State;
use agent_mux::text::{sort_string_vec, str_lt};
use agent_mux::tmux::{fields, lines, parse_u32, pick_pane, prefer_pane};
use agent_mux::topology::build_tree;

fn strings(v: &[&str]) -> Vec<String> {
    v.iter().map(|s| s.to_string()).collect()
}

fn peer(sid: &str, parent: Slot, role: &str) -> Peer {
    Peer {
        sid: sid.to_string(),
        last_seen: 0,
        info: PeerInfo {
            status: Slot::Text("online".to_string()),
            parent_id: parent,
            role: Slot::Text(role.to_string()),
            state: Slot::Absent,
            offline_reason: Slot::Absent,
            joined_at: None,
            last_ctrl_ack: None,
            report: None,
        },
    }
}

fn under(p: &str) -> Slot {
    Slot::Text(p.to_string())
}

#[test]
fn topology_tree_in_preorder() {
    let reg = vec![
        peer("c", under("m"), "slave"),
        peer("b", Slot::Absent, "slave"),
        peer("a", Slot::Null, "slave"),
        peer("b1", under("b"), "slave"),
        peer("b0", under("b"), "slave"),
        peer("x", under(""), "slave"),
        peer("other-master", Slot::Absent, "master"),
        peer("orphan", under("nobody"), "slave"),
    ];
    let rows = build_tree(&reg, "m");
    let got: Vec<(&str, usize)> = rows.iter().map(|(s, d)| (s.as_str(), *d)).collect();
    assert_eq!(
        got,
        vec![("m", 0), ("a", 1), ("b", 1), ("b0", 2), ("b1", 2), ("c", 1), ("x", 1)]
    );
    let lone = build_tree(&Vec::new(), "m");
    assert_eq!(lone, vec![("m".to_string(), 0)]);
}

#[test]
fn string_order() {
    assert!(str_lt("a", "b"));
    assert!(str_lt("ab", "abc"));
    assert!(!str_lt("abc", "ab"));
    assert!(!str_lt("a", "a"));
    assert!(str_lt("Z", "a"));
    assert_eq!(sort_string_vec(&strings(&["pear", "apple", "fig", "apple"])), strings(&["apple", "apple", "fig", "pear"]));
}

fn report(id: &str, files: &[&str], zone: &str, sev: Option<&str>, ts: u64) -> Conflict {
    Conflict {
        id: id.to_string(),
        files: strings(files),
        zone: zone.to_string(),
        severity: sev.map(|s| s.to_string()),
        ts,
        json: "{}".to_string(),
    }
}

#[test]
fn risk_zones_rank_hot_paths_first() {
    let cs = vec![
        report("1", &["src/a.rs", ""], "", Some("low"), 10),
        report("2", &["src/b.rs"], "zone-x", None, 30),
        report("3", &["src/a.rs"], "", Some("high"), 20),
        report("4", &["src/b.rs"], "", Some("high"), 5),
    ];
    let z = risk_zones(&cs);
    let got: Vec<(&str, u64, Vec<String>, u64)> =
        z.iter().map(|r| (r.path.as_str(), r.count, r.severities.clone(), r.last)).collect();
    assert_eq!(
        got,
        vec![
            ("src/b.rs", 2, strings(&["high", "medium"]), 30),
            ("src/a.rs", 2, strings(&["high", "low"]), 20),
            ("zone-x", 1, strings(&["medium"]), 30),
        ]
    );
    assert!(risk_zones(&Vec::new()).is_empty());
}

#[test]
fn pending_ids_in_order() {
    let mut s = State::new(None);
    s.add_pending("b".to_string(), "t".to_string(), "m".to_string(), "null".to_string(), 0, 1);
    s.add_pending("a".to_string(), "t".to_string(), "m".to_string(), "null".to_string(), 0, 1);
    s.add_pending("c".to_string(), "t".to_string(), "m".to_string(), "null".to_string(), 0, 1);
    assert_eq!(s.pending_ids(), strings(&["a", "b", "c"]));
}

#[test]
fn tmux_listing() {
    assert_eq!(lines("a\r\nb\n\nc"), strings(&["a", "b", "", "c"]));
    assert_eq!(lines("a\n"), strings(&["a"]));
    assert!(lines("").is_empty());
    assert_eq!(
        fields("%1 42 codex --yolo"),
        Some(("%1".to_string(), "42".to_string(), "codex --yolo".to_string()))
    );
    assert_eq!(fields("%1 42"), Some(("%1".to_string(), "42".to_string(), String::new())));
    assert_eq!(fields("%1"), None);
    assert_eq!(parse_u32("+17"), Some(17));
    assert_eq!(parse_u32("4294967295"), Some(4294967295));
    assert_eq!(parse_u32("4294967296"), None);
    assert_eq!(parse_u32("-1"), None);
    assert_eq!(parse_u32("+"), None);
    assert_eq!(parse_u32("1x"), None);
    let listing = "%0 1 bash\n%1 7 zsh\n%2 9 Codex\n%3 7 codex\n";
    let ancestors = vec![7u32, 9];
    assert_eq!(pick_pane(listing, &ancestors), Some("%2".to_string()));
    assert_eq!(pick_pane("%1 7 zsh\n%3 8 codex\n", &ancestors), Some("%1".to_string()));
    assert_eq!(pick_pane("%1 x zsh\n", &ancestors), None);
}

#[test]
fn codex_pane_is_preferred() {
    assert_eq!(prefer_pane(None, false, "%1".to_string(), "zsh"), (Some("%1".to_string()), false));
    assert_eq!(
        prefer_pane(Some("%1".to_string()), false, "%2".to_string(), "node codex --tui"),
        (Some("%2".to_string()), true)
    );
    assert_eq!(
        prefer_pane(Some("%2".to_string()), true, "%3".to_string(), "codex"),
        (Some("%2".to_string()), true)
    );
    assert_eq!(
        prefer_pane(Some("%1".to_string()), false, "%4".to_string(), "bash"),
        (Some("%1".to_string()), false)
    );
}
