use tailscale_ui::config::AppConfig;
use tailscale_ui::indicator::{tool_tip_title, tray_id, tray_title, TrayStatus};
use tailscale_ui::menu::{MenuAction, MenuEntry};
use tailscale_ui::status::{ExitNodeChoice, TailscaleSnapshot};
use tailscale_ui::tray::{
    autostart_entry, command_display, command_failure, command_failure_text, exit_node_args,
    local_web_pid,
    plan_stop_local_web, StopPlan, TailscaleTrayApp,
};

fn choice(id: &str, host: &str, ip: &str, online: bool) -> ExitNodeChoice {
    ExitNodeChoice {
        node_id: id.to_string(),
        host_name: host.to_string(),
        dns_name: String::new(),
        ip: ip.to_string(),
        online,
    }
}

fn snapshot(state: &str, current_id: &str) -> TailscaleSnapshot {
    TailscaleSnapshot {
        backend_state: state.to_string(),
        auth_url: String::new(),
        self_host: "laptop".to_string(),
        self_dns: "laptop.ts.net".to_string(),
        self_ips: vec!["100.64.0.1".to_string(), "fd7a::1".to_string()],
        current_exit_node_id: current_id.to_string(),
        current_exit_node_name: " alpha ".to_string(),
        current_exit_node_ip: "100.1.1.1".to_string(),
        peers: vec![choice("1", "alpha", "100.1.1.1", true), choice("3", "beta", "100.1.1.3", false)],
    }
}

fn app() -> TailscaleTrayApp {
    TailscaleTrayApp::new(AppConfig::default(), "/usr/bin/tailscale-ui".to_string())
}

fn labels(items: &[MenuEntry]) -> Vec<String> {
    items
        .iter()
        .map(|e| match e {
            MenuEntry::Standard { label, enabled, .. } => format!("{label}|{enabled}"),
            MenuEntry::Checkmark { label, checked, enabled, .. } => format!("{label}|{checked}|{enabled}"),
            MenuEntry::Separator => "---".to_string(),
            MenuEntry::SubMenuStart { label } => format!("<{label}>"),
            MenuEntry::SubMenuEnd => "</>".to_string(),
        })
        .collect()
}

#[test]
fn command_display_prefixes_tailscale() {
    assert_eq!(command_display(&[]), "tailscale");
    assert_eq!(command_display(&["status".to_string(), "--json".to_string()]), "tailscale status --json");
}

#[test]
fn command_failure_reports_output_or_code() {
    assert_eq!(
        command_failure("tailscale up", b" oops \n", b"", Some(1)),
        "Command failed: tailscale up\nstdout: oops"
    );
    assert_eq!(
        command_failure("tailscale up", b"a", b"b\n", Some(1)),
        "Command failed: tailscale up\nstdout: a\nstderr: b"
    );
    assert_eq!(command_failure("x", b"  ", b"", Some(-2)), "Command failed: x\nreturn code: Some(-2)");
    assert_eq!(command_failure_text("x", "", "", None), "Command failed: x\nreturn code: None");
}

#[test]
fn exit_node_args_format() {
    assert_eq!(
        exit_node_args("100.1.1.1", false),
        vec!["set", "--exit-node=100.1.1.1", "--exit-node-allow-lan-access=false"]
    );
    assert_eq!(exit_node_args("x", true)[2], "--exit-node-allow-lan-access=true");
}

#[test]
fn autostart_entry_contents() {
    assert_eq!(
        autostart_entry("/opt/my apps/tray"),
        "[Desktop Entry]\nType=Application\nName=Tailscale UI\nComment=Tray controller for Tailscale\nExec=/opt/my\\ apps/tray\nX-GNOME-Autostart-enabled=true\nNoDisplay=true\n"
    );
    let mut a = app();
    assert!(a.autostart_contents().unwrap().contains("Exec=/usr/bin/tailscale-ui\n"));
    a.set_autostart(false);
    assert!(a.autostart_contents().is_none());
}

#[test]
fn status_lines_per_state() {
    let mut a = app();
    assert_eq!(a.status_line(), "Status: loading");
    a.set_snapshot(snapshot("Running", ""));
    assert_eq!(a.status_line(), "Status: on  Exit: alpha (100.1.1.1)");
    a.set_snapshot(snapshot("Stopped", ""));
    assert_eq!(a.status_line(), "Status: off");
    let mut s = snapshot("NeedsLogin", "");
    s.auth_url = "https://login.tailscale.com/a/1".to_string();
    a.set_snapshot(s);
    assert_eq!(a.status_line(), "Status: login required");
    a.report_error("boom".to_string());
    assert_eq!(a.status_line(), "Status: error");
    assert_eq!(a.last_message, "boom");
    assert_eq!(a.status(), TrayStatus::NeedsAttention);
    assert_eq!(a.attention_icon_name(), "dialog-error");
    assert!(a.attention_icon_pixmap().is_some());
    a.clear_error();
    assert_eq!(a.last_message, "boom");
    assert_eq!(a.status(), TrayStatus::Active);
    assert_eq!(a.attention_icon_name(), "");
    assert!(a.attention_icon_pixmap().is_none());
}

#[test]
fn exit_node_labels() {
    let a = app();
    let mut s = snapshot("Running", "");
    assert_eq!(a.current_exit_node_label(&s), "alpha (100.1.1.1)");
    s.current_exit_node_name = "100.1.1.1".to_string();
    assert_eq!(a.current_exit_node_label(&s), "100.1.1.1");
    s.current_exit_node_ip = " ".to_string();
    assert_eq!(a.current_exit_node_label(&s), "100.1.1.1");
    s.current_exit_node_name = String::new();
    assert_eq!(a.current_exit_node_label(&s), "none");
    assert_eq!(a.status_line_for_snapshot(&s), "Tailscale is connected through none");
    assert_eq!(a.status_line_for_snapshot(&snapshot("Stopped", "")), "Tailscale is disconnected");
}

#[test]
fn refresh_applies_saved_online_exit_node() {
    let mut a = app();
    a.config.preferred_exit_node_name = "ALPHA".to_string();
    let args = a.plan_refresh(snapshot("Running", "")).unwrap();
    assert_eq!(args, vec!["set", "--exit-node=100.1.1.1", "--exit-node-allow-lan-access=false"]);
    assert_eq!(a.last_message, "Applying saved exit node: alpha (100.1.1.1)");
    assert!(a.snapshot.is_none());
}

#[test]
fn refresh_keeps_snapshot_when_nothing_to_apply() {
    let mut a = app();
    a.config.preferred_exit_node_name = "alpha".to_string();
    assert!(a.plan_refresh(snapshot("Running", "1")).is_none());
    assert_eq!(a.last_message, "Tailscale is connected through alpha (100.1.1.1)");
    assert!(a.snapshot.is_some());
    a.config.preferred_exit_node_name = "beta".to_string();
    assert!(a.plan_refresh(snapshot("Running", "")).is_none());
    a.config.preferred_exit_node_name = "alpha".to_string();
    a.config.use_exit_node = false;
    assert!(a.plan_refresh(snapshot("Running", "")).is_none());
    a.config.use_exit_node = true;
    assert!(a.plan_refresh(snapshot("Stopped", "")).is_none());
    assert_eq!(a.last_message, "Tailscale is disconnected");
}

#[test]
fn toggle_connection_by_state() {
    let mut a = app();
    assert_eq!(a.toggle_connection(), vec!["up"]);
    assert_eq!(a.last_message, "Connecting Tailscale");
    a.set_snapshot(snapshot("Running", ""));
    assert_eq!(a.toggle_connection(), vec!["down"]);
    assert_eq!(a.last_message, "Disconnecting Tailscale");
}

#[test]
fn selecting_exit_node_saves_it_and_builds_command() {
    let mut a = app();
    a.config.use_exit_node = false;
    a.set_snapshot(snapshot("Running", ""));
    let peer = choice("3", "beta", "100.1.1.3", false);
    a.select_exit_node(&peer);
    assert!(a.config.use_exit_node);
    assert_eq!(a.config.preferred_exit_node_id, "3");
    assert_eq!(a.config.preferred_exit_node_ip, "100.1.1.3");
    let args = a.exit_node_command(&peer);
    assert_eq!(args[1], "--exit-node=100.1.1.3");
    assert_eq!(a.last_message, "Using exit node: beta (100.1.1.3, offline)");
    let found = a.snapshot.as_ref().unwrap().find_preferred_peer(&a.config).unwrap();
    assert_eq!(found.node_id, "3");
}

#[test]
fn clearing_exit_node() {
    let mut a = app();
    a.disable_exit_node();
    assert!(!a.config.use_exit_node);
    assert!(a.clear_exit_node_command().is_none());
    a.set_snapshot(snapshot("Running", ""));
    assert_eq!(a.clear_exit_node_command().unwrap(), vec!["set", "--exit-node="]);
    assert_eq!(a.last_message, "Clearing exit node");
}

#[test]
fn reapply_decisions() {
    let mut a = app();
    a.set_snapshot(snapshot("Running", ""));
    a.config.preferred_exit_node_name = "beta".to_string();
    assert!(a.exit_node_to_reapply().is_none());
    assert_eq!(a.lan_access_reapply().unwrap().node_id, "3");
    a.set_use_exit_node(false);
    assert!(a.lan_access_reapply().is_none());
    a.config.preferred_exit_node_name = "alpha".to_string();
    assert_eq!(a.exit_node_to_reapply().unwrap().node_id, "1");
    a.set_lan_access(true);
    assert!(a.config.exit_node_allow_lan_access);
}

#[test]
fn stop_plans() {
    assert_eq!(plan_stop_local_web(None, Some(3)), StopPlan::NothingRunning);
    assert_eq!(plan_stop_local_web(Some(3), Some(3)), StopPlan::KillChild);
    assert_eq!(plan_stop_local_web(Some(4), Some(3)), StopPlan::KillPid(4));
    assert_eq!(plan_stop_local_web(Some(4), None), StopPlan::KillPid(4));
    let mut a = app();
    a.finish_stop_local_web(Ok(()));
    assert_eq!(a.last_message, "Stopped local web interface");
    a.finish_stop_local_web(Err("no such process".to_string()));
    assert_eq!(a.last_message, "failed to stop local web interface: no such process");
    assert_eq!(a.error_message.as_deref(), Some("failed to stop local web interface: no such process"));
    a.local_web_started();
    assert_eq!(a.last_message, "Started local web interface on http://127.0.0.1:8088");
}

#[test]
fn menu_for_connected_state() {
    let mut a = app();
    a.config.preferred_exit_node_ip = "100.1.1.3".to_string();
    let mut s = snapshot("Running", "1");
    s.auth_url = "https://login".to_string();
    a.set_snapshot(s);
    let items = a.rebuild_menu(true);
    assert_eq!(labels(&items), vec![
        "Status: on  Exit: alpha (100.1.1.1)|false",
        "Connected through: alpha (100.1.1.1)|false",
        "---",
        "Disconnect Tailscale|true",
        "<Local web interface>",
        "Web interface: running|false",
        "Stop local web interface|true",
        "Open local web interface|true",
        "</>",
        "<Exit node>",
        "Connected through: alpha (100.1.1.1)|false",
        "Use saved exit node|true|true",
        "Allow LAN access via exit node|false|true",
        "<Choose exit node>",
        "alpha (100.1.1.1)  [current]|true",
        "beta (100.1.1.3, offline)  [saved]|false",
        "---",
        "Clear exit node|true",
        "</>",
        "</>",
        "<Admin>",
        "Open login page|true",
        "Open Tailscale admin console|true",
        "Start automatically on login|true|true",
        "</>",
        "---",
        "Refresh now|true",
        "Open config folder|true",
        "Quit|true",
    ]);
    match &items[14] {
        MenuEntry::Standard { action: MenuAction::ApplyExitNode(p), .. } => assert_eq!(p.node_id, "1"),
        _ => panic!("peer entry expected"),
    }
    match &items[21] {
        MenuEntry::Standard { action: MenuAction::OpenLoginPage(u), .. } => assert_eq!(u, "https://login"),
        _ => panic!("login entry expected"),
    }
}

#[test]
fn menu_without_status() {
    let a = app();
    let l = labels(&a.rebuild_menu(false));
    assert_eq!(l[0], "Status: loading|false");
    assert_eq!(l[1], "---");
    assert_eq!(l[2], "Connect Tailscale|true");
    assert!(l.contains(&"No exit nodes found|false".to_string()));
    assert!(l.contains(&"Open local web interface|false".to_string()));
    assert!(l.contains(&"Exit node: off|false".to_string()));
    assert!(!l.iter().any(|x| x.starts_with("Open login page")));
}

#[test]
fn tool_tip_text() {
    let mut a = app();
    assert_eq!(a.tool_tip(false), "Status: loading");
    a.last_message = "hello".to_string();
    assert_eq!(a.tool_tip(false), "Status: loading\nLast: hello");
    a.set_snapshot(snapshot("Running", ""));
    assert_eq!(
        a.tool_tip(true),
        "Status: on  Exit: alpha (100.1.1.1)\nSelf: laptop laptop.ts.net\nIPs: 100.64.0.1, fd7a::1\nLocal web: running\nLast: hello"
    );
    a.last_message = String::new();
    let mut s = snapshot("Stopped", "");
    s.self_ips.clear();
    a.set_snapshot(s);
    assert_eq!(a.tool_tip(false), "Status: off\nSelf: laptop laptop.ts.net\nLocal web: stopped");
}

#[test]
fn icon_colors_follow_state() {
    let mut a = app();
    assert_eq!(a.icon_colors(), ([0xff, 0, 0, 0], [0xff, 0xf0, 0xf0, 0xf0]));
    a.set_snapshot(snapshot("Running", ""));
    assert_eq!(a.icon_colors().1, [0xff, 0x44, 0xff, 0x44]);
    let mut s = snapshot("NeedsLogin", "");
    s.auth_url = "u".to_string();
    a.set_snapshot(s);
    assert_eq!(a.icon_colors().1, [0xff, 0xff, 0xf2, 0x66]);
    assert_eq!(a.icon_pixmap().len(), 16384);
    assert_eq!(tray_id(), "tailscale-ui");
    assert_eq!(tray_title(), "Tailscale UI 0.1.2");
    assert_eq!(a.icon_name(), "");
}

#[test]
fn refresh_outcome_sets_or_clears_the_error() {
    let mut a = app();
    a.set_snapshot(snapshot("Running", ""));
    a.finish_refresh(Err("failed to run tailscale status --json: gone".to_string()));
    assert_eq!(a.error_message.as_deref(), Some("failed to run tailscale status --json: gone"));
    assert_eq!(a.last_message, "failed to run tailscale status --json: gone");
    assert_eq!(a.status_line(), "Status: error");
    assert_eq!(a.status(), TrayStatus::NeedsAttention);
    assert_eq!(a.attention_icon_name(), "dialog-error");
    assert!(a.attention_icon_pixmap().is_some());
    a.finish_refresh(Ok(()));
    assert!(a.error_message.is_none());
    assert_eq!(a.last_message, "failed to run tailscale status --json: gone");
    assert_eq!(a.status_line(), "Status: on  Exit: alpha (100.1.1.1)");
    assert_eq!(a.status(), TrayStatus::Active);
    assert_eq!(a.attention_icon_name(), "");
    assert!(a.attention_icon_pixmap().is_none());
    assert_eq!(tool_tip_title(), "Tailscale UI");
}

#[test]
fn saved_exit_node_reapplied_after_reconnect() {
    let mut a = app();
    a.set_snapshot(snapshot("Running", "1"));
    let peer = choice("1", "alpha", "100.1.1.1", true);
    a.select_exit_node(&peer);
    assert!(a.plan_refresh(snapshot("Stopped", "")).is_none());
    assert_eq!(a.last_message, "Tailscale is disconnected");
    let args = a.plan_refresh(snapshot("Running", "")).unwrap();
    assert_eq!(args, vec!["set", "--exit-node=100.1.1.1", "--exit-node-allow-lan-access=false"]);
    assert_eq!(a.last_message, "Applying saved exit node: alpha (100.1.1.1)");
}

#[test]
fn local_web_pid_from_child_and_pid_file() {
    assert_eq!(local_web_pid(Some((10, true)), Some((20, true))), (Some(10), false));
    assert_eq!(local_web_pid(Some((10, true)), Some((20, false))), (Some(10), false));
    assert_eq!(local_web_pid(Some((10, false)), Some((20, true))), (Some(20), false));
    assert_eq!(local_web_pid(None, Some((20, false))), (None, true));
    assert_eq!(local_web_pid(Some((10, false)), None), (None, false));
    assert_eq!(local_web_pid(None, None), (None, false));
}
