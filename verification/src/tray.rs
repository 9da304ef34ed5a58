//! The tray's state and its decisions: status lines, the commands each action runs, how the
//! settings change, the autostart entry and the pid file of the local web interface.

use vstd::prelude::*;
use crate::config::{AppConfig, AppConfigView};
use crate::status::{
    display_name_spec, identifiers_match, is_connected, is_login_required,
    lemma_saved_peer_is_found, peer_identifiers, preferred_peer, ExitNodeChoice,
    ExitNodeChoiceView, TailscaleSnapshot, TailscaleSnapshotView,
};
use crate::text::{
    desktop_escape, desktop_escape_spec, i64_to_decimal, int_decimal, lossless_string, push_char,
    str_eq, trim, trim_spec, utf8_lossy,
};

verus! {

/// Title of the tray and of its tooltip.
pub open spec fn app_title() -> Seq<char> {
    "Tailscale UI"@
}

/// Where the local web interface listens.
pub open spec fn local_web_listen_spec() -> Seq<char> {
    "127.0.0.1:8088"@
}

/// URL of the local web interface.
pub open spec fn local_web_url_spec() -> Seq<char> {
    "http://127.0.0.1:8088"@
}

/// URL of the Tailscale admin console.
pub open spec fn admin_console_url_spec() -> Seq<char> {
    "https://login.tailscale.com/admin"@
}

/// Seconds between two status refreshes.
pub const REFRESH_INTERVAL_SECONDS: u64 = 15;

pub fn local_web_listen() -> (r: String)
    ensures
        r@ == local_web_listen_spec(),
{
    String::from_str("127.0.0.1:8088")
}

pub fn local_web_url() -> (r: String)
    ensures
        r@ == local_web_url_spec(),
{
    String::from_str("http://127.0.0.1:8088")
}

pub fn admin_console_url() -> (r: String)
    ensures
        r@ == admin_console_url_spec(),
{
    String::from_str("https://login.tailscale.com/admin")
}

/// The tray's state: settings, the last status read, the last message and the pending error.
#[derive(Debug)]
pub struct TailscaleTrayApp {
    pub config: AppConfig,
    pub snapshot: Option<TailscaleSnapshot>,
    pub last_message: String,
    pub error_message: Option<String>,
    pub current_exe: String,
}

pub struct TrayView {
    pub config: AppConfigView,
    pub snapshot: Option<TailscaleSnapshotView>,
    pub last_message: Seq<char>,
    pub error_message: Option<Seq<char>>,
    pub current_exe: Seq<char>,
}

impl DeepView for TailscaleTrayApp {
    type V = TrayView;

    open spec fn deep_view(&self) -> TrayView {
        TrayView {
            config: self.config.deep_view(),
            snapshot: match self.snapshot {
                Some(s) => Some(s.deep_view()),
                None => None,
            },
            last_message: self.last_message@,
            error_message: match self.error_message {
                Some(e) => Some(e@),
                None => None,
            },
            current_exe: self.current_exe@,
        }
    }
}

/// The trimmed name and address of the current exit node: `name (ip)` when both are known and
/// differ, else whichever is known, else `none`.
pub open spec fn exit_label_spec(s: TailscaleSnapshotView) -> Seq<char> {
    let name = trim_spec(s.current_exit_node_name);
    let ip = trim_spec(s.current_exit_node_ip);
    if name.len() > 0 && ip.len() > 0 && name != ip {
        name + " ("@ + ip + ")"@
    } else if name.len() > 0 {
        name
    } else if ip.len() > 0 {
        ip
    } else {
        "none"@
    }
}

/// First line of the menu and of the tooltip.
pub open spec fn status_line_spec(t: TrayView) -> Seq<char> {
    if t.error_message is Some {
        "Status: error"@
    } else {
        match t.snapshot {
            None => "Status: loading"@,
            Some(s) => if is_connected(s) {
                "Status: on  Exit: "@ + exit_label_spec(s)
            } else if is_login_required(s) {
                "Status: login required"@
            } else {
                "Status: off"@
            },
        }
    }
}

/// The message that a fresh status read leaves.
pub open spec fn snapshot_message_spec(s: TailscaleSnapshotView) -> Seq<char> {
    if is_connected(s) {
        "Tailscale is connected through "@ + exit_label_spec(s)
    } else if is_login_required(s) {
        "Tailscale login required"@
    } else {
        "Tailscale is disconnected"@
    }
}

/// The saved exit node to switch to after a status read: only while connected, with exit node
/// use on, when the saved peer is online and is not already the current exit node.
pub open spec fn node_to_apply_spec(t: TrayView, s: TailscaleSnapshotView) -> Option<
    ExitNodeChoiceView,
> {
    if !is_connected(s) || !t.config.use_exit_node {
        None
    } else {
        match preferred_peer(s, t.config) {
            None => None,
            Some(p) => if !p.online {
                None
            } else if s.current_exit_node_id.len() > 0 && s.current_exit_node_id == p.node_id {
                None
            } else {
                Some(p)
            },
        }
    }
}

/// `true` or `false`.
pub open spec fn bool_text(b: bool) -> Seq<char> {
    if b {
        "true"@
    } else {
        "false"@
    }
}

/// Arguments of `tailscale set` that route traffic through the exit node at `ip`.
pub open spec fn exit_node_args_spec(ip: Seq<char>, allow_lan: bool) -> Seq<Seq<char>> {
    seq!["set"@, "--exit-node="@ + ip, "--exit-node-allow-lan-access="@ + bool_text(allow_lan)]
}

/// The connection is toggled off when the last status read says connected, on otherwise.
pub open spec fn connected_now(t: TrayView) -> bool {
    match t.snapshot {
        Some(s) => is_connected(s),
        None => false,
    }
}

/// `tailscale` followed by the arguments, separated by spaces.
pub open spec fn command_display_spec(args: Seq<Seq<char>>) -> Seq<char>
    decreases args.len(),
{
    if args.len() == 0 {
        "tailscale"@
    } else {
        command_display_spec(args.drop_last()) + " "@ + args.last()
    }
}

/// What `{:?}` prints for an optional exit code.
pub open spec fn exit_code_text(code: Option<i32>) -> Seq<char> {
    match code {
        Some(c) => "Some("@ + int_decimal(c as int) + ")"@,
        None => "None"@,
    }
}

/// The report of a failed command from its trimmed output.
pub open spec fn command_failure_spec(
    command: Seq<char>,
    stdout: Seq<char>,
    stderr: Seq<char>,
    code: Option<i32>,
) -> Seq<char> {
    let head = "Command failed: "@ + command;
    let out = if stdout.len() > 0 {
        head + "\nstdout: "@ + stdout
    } else {
        head
    };
    let err = if stderr.len() > 0 {
        out + "\nstderr: "@ + stderr
    } else {
        out
    };
    if stdout.len() == 0 && stderr.len() == 0 {
        err + "\nreturn code: "@ + exit_code_text(code)
    } else {
        err
    }
}

/// The autostart desktop entry that starts the executable at `exe` on login.
pub open spec fn autostart_entry_spec(exe: Seq<char>) -> Seq<char> {
    "[Desktop Entry]\nType=Application\nName="@ + app_title()
        + "\nComment=Tray controller for Tailscale\nExec="@ + desktop_escape_spec(exe)
        + "\nX-GNOME-Autostart-enabled=true\nNoDisplay=true\n"@
}

/// `tailscale` followed by the arguments, separated by spaces.
pub fn command_display(args: &[String]) -> (r: String)
    ensures
        r@ == command_display_spec(args@.map_values(|a: String| a@)),
{
    let mut s = String::from_str("tailscale");
    let n = args.len();
    let mut i: usize = 0;
    while i < n
        invariant
            n == args@.len(),
            i <= n,
            s@ == command_display_spec(args@.take(i as int).map_values(|a: String| a@)),
        decreases n - i,
    {
        s.append(" ");
        s.append(args[i].as_str());
        proof {
            let t = args@.take(i + 1).map_values(|a: String| a@);
            assert(t.drop_last() =~= args@.take(i as int).map_values(|a: String| a@));
        }
        i = i + 1;
    }
    proof {
        assert(args@.take(n as int) =~= args@);
    }
    s
}

/// The report of a failed command, from its decoded and trimmed output.
pub fn command_failure_text(command: &str, stdout: &str, stderr: &str, code: Option<i32>) -> (r:
    String)
    ensures
        r@ == command_failure_spec(command@, stdout@, stderr@, code),
{
    let mut s = String::from_str("Command failed: ");
    s.append(command);
    if !stdout.is_empty() {
        s.append("\nstdout: ");
        s.append(stdout);
    }
    if !stderr.is_empty() {
        s.append("\nstderr: ");
        s.append(stderr);
    }
    if stdout.is_empty() && stderr.is_empty() {
        s.append("\nreturn code: ");
        match code {
            Some(c) => {
                s.append("Some(");
                let d = i64_to_decimal(c as i64);
                s.append(d.as_str());
                s.append(")");
            },
            None => {
                s.append("None");
            },
        }
    }
    s
}

/// The report of a failed command from its raw output and exit code.
pub fn command_failure(command: &str, stdout: &[u8], stderr: &[u8], code: Option<i32>) -> (r:
    String)
    ensures
        r@ == command_failure_spec(
            command@,
            trim_spec(utf8_lossy(stdout@)),
            trim_spec(utf8_lossy(stderr@)),
            code,
        ),
{
    let out = lossless_string(stdout);
    let err = lossless_string(stderr);
    command_failure_text(command, out.as_str(), err.as_str(), code)
}

/// The autostart desktop entry that starts the executable at `exe` on login.
pub fn autostart_entry(exe: &str) -> (r: String)
    ensures
        r@ == autostart_entry_spec(exe@),
{
    let mut s = String::from_str("[Desktop Entry]\nType=Application\nName=");
    s.append("Tailscale UI");
    s.append("\nComment=Tray controller for Tailscale\nExec=");
    let e = desktop_escape(exe);
    s.append(e.as_str());
    s.append("\nX-GNOME-Autostart-enabled=true\nNoDisplay=true\n");
    s
}

/// Arguments of `tailscale set` that route traffic through the exit node at `ip`.
pub fn exit_node_args(ip: &str, allow_lan: bool) -> (r: Vec<String>)
    ensures
        r.deep_view() == exit_node_args_spec(ip@, allow_lan),
{
    let mut v: Vec<String> = Vec::new();
    v.push(String::from_str("set"));
    v.push(String::from_str("--exit-node=").concat(ip));
    let flag = if allow_lan {
        "true"
    } else {
        "false"
    };
    v.push(String::from_str("--exit-node-allow-lan-access=").concat(flag));
    proof {
        assert(v.deep_view() =~= exit_node_args_spec(ip@, allow_lan));
    }
    v
}


/// How the local web interface is stopped.
#[derive(PartialEq, Eq, Debug, Clone, Copy)]
pub enum StopPlan {
    /// Nothing runs: only the pid file and the child handle are cleared.
    NothingRunning,
    /// The running interface is the tray's own child: kill and reap it.
    KillChild,
    /// The running interface is another process: send it a termination signal.
    KillPid(i32),
}

/// How to stop the local web interface, given the pid of the running interface and the pid
/// of the tray's own child process.
pub open spec fn stop_plan_spec(running_pid: Option<i32>, child_pid: Option<i32>) -> StopPlan {
    match running_pid {
        None => StopPlan::NothingRunning,
        Some(pid) => if child_pid == Some(pid) {
            StopPlan::KillChild
        } else {
            StopPlan::KillPid(pid)
        },
    }
}

/// Chooses how to stop the local web interface.
pub fn plan_stop_local_web(running_pid: Option<i32>, child_pid: Option<i32>) -> (r: StopPlan)
    ensures
        r == stop_plan_spec(running_pid, child_pid),
{
    match running_pid {
        None => StopPlan::NothingRunning,
        Some(pid) => match child_pid {
            Some(c) => if c == pid {
                StopPlan::KillChild
            } else {
                StopPlan::KillPid(pid)
            },
            None => StopPlan::KillPid(pid),
        },
    }
}

/// The pid of the running local web interface, and whether the pid file is stale and must be
/// removed. `child` is the pid of the tray's own child process with whether it runs; `file` is
/// the pid read from the pid file (when it holds one) with whether it runs. A running child
/// wins; otherwise a running file pid; a file pid that no longer runs is stale.
pub open spec fn local_web_pid_spec(child: Option<(i32, bool)>, file: Option<(i32, bool)>) -> (
    Option<i32>,
    bool,
) {
    match child {
        Some((pid, true)) => (Some(pid), false),
        _ => match file {
            Some((pid, true)) => (Some(pid), false),
            Some((_, false)) => (None, true),
            None => (None, false),
        },
    }
}

/// Decides which pid the local web interface runs under and whether the pid file is stale.
pub fn local_web_pid(child: Option<(i32, bool)>, file: Option<(i32, bool)>) -> (r: (
    Option<i32>,
    bool,
))
    ensures
        r == local_web_pid_spec(child, file),
{
    match child {
        Some((pid, true)) => (Some(pid), false),
        _ => match file {
            Some((pid, true)) => (Some(pid), false),
            Some((_, false)) => (None, true),
            None => (None, false),
        },
    }
}

impl TailscaleTrayApp {
    /// The state at start-up: loaded settings, no status read yet, no message, no error.
    pub fn new(config: AppConfig, current_exe: String) -> (r: Self)
        ensures
            r.config == config,
            r.snapshot is None,
            r.last_message@ == Seq::<char>::empty(),
            r.error_message is None,
            r.current_exe == current_exe,
    {
        TailscaleTrayApp {
            config,
            snapshot: None,
            last_message: String::new(),
            error_message: None,
            current_exe,
        }
    }

    /// Records an error: it becomes the pending error and the last message.
    pub fn report_error(&mut self, message: String)
        ensures
            final(self).error_message == Some(message),
            final(self).last_message == message,
            final(self).config == old(self).config,
            final(self).snapshot == old(self).snapshot,
            final(self).current_exe == old(self).current_exe,
    {
        self.error_message = Some(message.clone());
        self.last_message = message;
    }

    /// Clears the pending error; the last message stays.
    pub fn clear_error(&mut self)
        ensures
            final(self).error_message is None,
            final(self).last_message == old(self).last_message,
            final(self).config == old(self).config,
            final(self).snapshot == old(self).snapshot,
            final(self).current_exe == old(self).current_exe,
    {
        self.error_message = None;
    }

    /// The autostart entry to write, or nothing when autostart is off (the entry is then
    /// removed).
    pub fn autostart_contents(&self) -> (r: Option<String>)
        ensures
            match r {
                Some(c) => self.config.autostart_enabled && c@ == autostart_entry_spec(
                    self.current_exe@,
                ),
                None => !self.config.autostart_enabled,
            },
    {
        if !self.config.autostart_enabled {
            return None;
        }
        Some(autostart_entry(self.current_exe.as_str()))
    }

    /// The label of the current exit node.
    pub fn current_exit_node_label(&self, snapshot: &TailscaleSnapshot) -> (r: String)
        ensures
            r@ == exit_label_spec(snapshot.deep_view()),
    {
        let name = trim(snapshot.current_exit_node_name.as_str());
        let ip = trim(snapshot.current_exit_node_ip.as_str());
        if !name.is_empty() && !ip.is_empty() && !str_eq(name, ip) {
            String::from_str(name).concat(" (").concat(ip).concat(")")
        } else if !name.is_empty() {
            String::from_str(name)
        } else if !ip.is_empty() {
            String::from_str(ip)
        } else {
            String::from_str("none")
        }
    }

    /// First line of the menu and of the tooltip.
    pub fn status_line(&self) -> (r: String)
        ensures
            r@ == status_line_spec(self.deep_view()),
    {
        if self.error_message.is_some() {
            return String::from_str("Status: error");
        }
        match &self.snapshot {
            None => String::from_str("Status: loading"),
            Some(snapshot) => {
                if snapshot.connected() {
                    let label = self.current_exit_node_label(snapshot);
                    String::from_str("Status: on  Exit: ").concat(label.as_str())
                } else if snapshot.login_required() {
                    String::from_str("Status: login required")
                } else {
                    String::from_str("Status: off")
                }
            },
        }
    }

    /// The message that a fresh status read leaves.
    pub fn status_line_for_snapshot(&self, snapshot: &TailscaleSnapshot) -> (r: String)
        ensures
            r@ == snapshot_message_spec(snapshot.deep_view()),
    {
        if snapshot.connected() {
            let label = self.current_exit_node_label(snapshot);
            String::from_str("Tailscale is connected through ").concat(label.as_str())
        } else if snapshot.login_required() {
            String::from_str("Tailscale login required")
        } else {
            String::from_str("Tailscale is disconnected")
        }
    }

    /// The saved exit node to switch to after a status read.
    pub fn preferred_exit_node_to_apply(&self, snapshot: &TailscaleSnapshot) -> (r: Option<
        ExitNodeChoice,
    >)
        ensures
            match r {
                Some(p) => node_to_apply_spec(self.deep_view(), snapshot.deep_view()) == Some(
                    p.deep_view(),
                ),
                None => node_to_apply_spec(self.deep_view(), snapshot.deep_view()) is None,
            },
    {
        if !snapshot.connected() || !self.config.use_exit_node {
            return None;
        }
        let peer = match snapshot.find_preferred_peer(&self.config) {
            Some(p) => p,
            None => {
                return None;
            },
        };
        if !peer.online {
            return None;
        }
        if !snapshot.current_exit_node_id.as_str().is_empty() && str_eq(
            snapshot.current_exit_node_id.as_str(),
            peer.node_id.as_str(),
        ) {
            return None;
        }
        Some(peer)
    }

    /// Takes in a fresh status read. Sets the last message; when the saved exit node should be
    /// applied, the message says so and the `tailscale set` arguments are returned (the status
    /// is read again after they ran), else the read is kept as the current snapshot.
    pub fn plan_refresh(&mut self, snapshot: TailscaleSnapshot) -> (r: Option<Vec<String>>)
        ensures
            final(self).config == old(self).config,
            final(self).error_message == old(self).error_message,
            final(self).current_exe == old(self).current_exe,
            match node_to_apply_spec(old(self).deep_view(), snapshot.deep_view()) {
                Some(p) => r matches Some(args) && args.deep_view() == exit_node_args_spec(
                    p.ip,
                    old(self).config.exit_node_allow_lan_access,
                ) && final(self).last_message@ == "Applying saved exit node: "@
                    + display_name_spec(p) && final(self).snapshot == old(self).snapshot,
                None => r is None && final(self).last_message@ == snapshot_message_spec(
                    snapshot.deep_view(),
                ) && final(self).snapshot == Some(snapshot),
            },
    {
        self.last_message = self.status_line_for_snapshot(&snapshot);
        match self.preferred_exit_node_to_apply(&snapshot) {
            Some(peer) => {
                let name = peer.display_name();
                self.last_message = String::from_str("Applying saved exit node: ").concat(
                    name.as_str(),
                );
                Some(exit_node_args(peer.ip.as_str(), self.config.exit_node_allow_lan_access))
            },
            None => {
                self.snapshot = Some(snapshot);
                None
            },
        }
    }

    /// Keeps a status read as the current snapshot.
    pub fn set_snapshot(&mut self, snapshot: TailscaleSnapshot)
        ensures
            final(self).snapshot == Some(snapshot),
            final(self).config == old(self).config,
            final(self).last_message == old(self).last_message,
            final(self).error_message == old(self).error_message,
            final(self).current_exe == old(self).current_exe,
    {
        self.snapshot = Some(snapshot);
    }

    /// Connects when the last read says disconnected and disconnects when it says connected:
    /// sets the message and returns the `tailscale` arguments.
    pub fn toggle_connection(&mut self) -> (r: Vec<String>)
        ensures
            final(self).config == old(self).config,
            final(self).snapshot == old(self).snapshot,
            final(self).error_message == old(self).error_message,
            final(self).current_exe == old(self).current_exe,
            if connected_now(old(self).deep_view()) {
                r.deep_view() == seq!["down"@] && final(self).last_message@
                    == "Disconnecting Tailscale"@
            } else {
                r.deep_view() == seq!["up"@] && final(self).last_message@
                    == "Connecting Tailscale"@
            },
            (old(self).snapshot matches Some(s) && s.backend_state@ == "Running"@) ==> r.deep_view()
                == seq!["down"@],
            !(old(self).snapshot matches Some(s) && s.backend_state@ == "Running"@) ==> r.deep_view()
                == seq!["up"@],
    {
        let connected = match &self.snapshot {
            Some(s) => s.connected(),
            None => false,
        };
        let mut args: Vec<String> = Vec::new();
        if connected {
            args.push(String::from_str("down"));
            self.last_message = String::from_str("Disconnecting Tailscale");
        } else {
            args.push(String::from_str("up"));
            self.last_message = String::from_str("Connecting Tailscale");
        }
        proof {
            if connected {
                assert(args.deep_view() =~= seq!["down"@]);
            } else {
                assert(args.deep_view() =~= seq!["up"@]);
            }
        }
        args
    }

    /// Saves `peer` as the preferred exit node and turns exit node use on.
    pub fn select_exit_node(&mut self, peer: &ExitNodeChoice)
        ensures
            final(self).config.preferred_exit_node_id == peer.node_id,
            final(self).config.preferred_exit_node_name == peer.host_name,
            final(self).config.preferred_exit_node_ip == peer.ip,
            final(self).config.preferred_exit_node_dns == peer.dns_name,
            final(self).config.use_exit_node,
            final(self).config.exit_node_allow_lan_access == old(
                self,
            ).config.exit_node_allow_lan_access,
            final(self).config.autostart_enabled == old(self).config.autostart_enabled,
            final(self).snapshot == old(self).snapshot,
            final(self).last_message == old(self).last_message,
            final(self).error_message == old(self).error_message,
            final(self).current_exe == old(self).current_exe,
    {
        self.config.preferred_exit_node_id = peer.node_id.clone();
        self.config.preferred_exit_node_name = peer.host_name.clone();
        self.config.preferred_exit_node_ip = peer.ip.clone();
        self.config.preferred_exit_node_dns = peer.dns_name.clone();
        self.config.use_exit_node = true;
    }

    /// The `tailscale set` arguments that switch to `peer`, with the message that says so.
    pub fn exit_node_command(&mut self, peer: &ExitNodeChoice) -> (r: Vec<String>)
        ensures
            r.deep_view() == exit_node_args_spec(
                peer.ip@,
                old(self).config.exit_node_allow_lan_access,
            ),
            final(self).last_message@ == "Using exit node: "@ + display_name_spec(
                peer.deep_view(),
            ),
            final(self).config == old(self).config,
            final(self).snapshot == old(self).snapshot,
            final(self).error_message == old(self).error_message,
            final(self).current_exe == old(self).current_exe,
    {
        let args = exit_node_args(peer.ip.as_str(), self.config.exit_node_allow_lan_access);
        let name = peer.display_name();
        self.last_message = String::from_str("Using exit node: ").concat(name.as_str());
        args
    }

    /// Turns exit node use off in the settings.
    pub fn disable_exit_node(&mut self)
        ensures
            final(self).config.deep_view() == (AppConfigView {
                use_exit_node: false,
                ..old(self).config.deep_view()
            }),
            final(self).snapshot == old(self).snapshot,
            final(self).last_message == old(self).last_message,
            final(self).error_message == old(self).error_message,
            final(self).current_exe == old(self).current_exe,
    {
        self.config.use_exit_node = false;
    }

    /// The `tailscale set` arguments that stop using an exit node, with the message that says
    /// so; nothing to run while disconnected.
    pub fn clear_exit_node_command(&mut self) -> (r: Option<Vec<String>>)
        ensures
            final(self).config == old(self).config,
            final(self).snapshot == old(self).snapshot,
            final(self).error_message == old(self).error_message,
            final(self).current_exe == old(self).current_exe,
            if connected_now(old(self).deep_view()) {
                r matches Some(args) && args.deep_view() == seq!["set"@, "--exit-node="@]
                    && final(self).last_message@ == "Clearing exit node"@
            } else {
                r is None && final(self).last_message == old(self).last_message
            },
    {
        let connected = match &self.snapshot {
            Some(s) => s.connected(),
            None => false,
        };
        if !connected {
            return None;
        }
        let mut args: Vec<String> = Vec::new();
        args.push(String::from_str("set"));
        args.push(String::from_str("--exit-node="));
        self.last_message = String::from_str("Clearing exit node");
        proof {
            assert(args.deep_view() =~= seq!["set"@, "--exit-node="@]);
        }
        Some(args)
    }

    /// Sets whether the saved exit node is used.
    pub fn set_use_exit_node(&mut self, enabled: bool)
        ensures
            final(self).config.deep_view() == (AppConfigView {
                use_exit_node: enabled,
                ..old(self).config.deep_view()
            }),
            final(self).snapshot == old(self).snapshot,
            final(self).last_message == old(self).last_message,
            final(self).error_message == old(self).error_message,
            final(self).current_exe == old(self).current_exe,
    {
        self.config.use_exit_node = enabled;
    }

    /// Sets whether LAN access stays allowed through the exit node.
    pub fn set_lan_access(&mut self, enabled: bool)
        ensures
            final(self).config.deep_view() == (AppConfigView {
                exit_node_allow_lan_access: enabled,
                ..old(self).config.deep_view()
            }),
            final(self).snapshot == old(self).snapshot,
            final(self).last_message == old(self).last_message,
            final(self).error_message == old(self).error_message,
            final(self).current_exe == old(self).current_exe,
    {
        self.config.exit_node_allow_lan_access = enabled;
    }

    /// Sets whether the tray starts on login.
    pub fn set_autostart(&mut self, enabled: bool)
        ensures
            final(self).config.deep_view() == (AppConfigView {
                autostart_enabled: enabled,
                ..old(self).config.deep_view()
            }),
            final(self).snapshot == old(self).snapshot,
            final(self).last_message == old(self).last_message,
            final(self).error_message == old(self).error_message,
            final(self).current_exe == old(self).current_exe,
    {
        self.config.autostart_enabled = enabled;
    }

    /// After exit node use was turned on: the saved peer to switch to, while connected and
    /// when it is online.
    pub fn exit_node_to_reapply(&self) -> (r: Option<ExitNodeChoice>)
        ensures
            match r {
                Some(p) => connected_now(self.deep_view()) && p.online && preferred_peer(
                    self.snapshot->0.deep_view(),
                    self.config.deep_view(),
                ) == Some(p.deep_view()),
                None => !connected_now(self.deep_view()) || match preferred_peer(
                    self.snapshot->0.deep_view(),
                    self.config.deep_view(),
                ) {
                    Some(p) => !p.online,
                    None => true,
                },
            },
    {
        match &self.snapshot {
            Some(snapshot) => {
                if snapshot.connected() {
                    match snapshot.find_preferred_peer(&self.config) {
                        Some(peer) => {
                            if peer.online {
                                return Some(peer);
                            }
                        },
                        None => {},
                    }
                }
                None
            },
            None => None,
        }
    }

    /// After LAN access was toggled: the saved peer to switch to again (online or not), while
    /// connected with exit node use on.
    pub fn lan_access_reapply(&self) -> (r: Option<ExitNodeChoice>)
        ensures
            match r {
                Some(p) => connected_now(self.deep_view()) && self.config.use_exit_node
                    && preferred_peer(self.snapshot->0.deep_view(), self.config.deep_view())
                    == Some(p.deep_view()),
                None => !connected_now(self.deep_view()) || !self.config.use_exit_node
                    || preferred_peer(self.snapshot->0.deep_view(), self.config.deep_view()) is None,
            },
    {
        match &self.snapshot {
            Some(snapshot) => {
                if snapshot.connected() && self.config.use_exit_node {
                    return snapshot.find_preferred_peer(&self.config);
                }
                None
            },
            None => None,
        }
    }

    /// Records the outcome of stopping the local web interface.
    pub fn finish_stop_local_web(&mut self, outcome: Result<(), String>)
        ensures
            final(self).config == old(self).config,
            final(self).snapshot == old(self).snapshot,
            final(self).current_exe == old(self).current_exe,
            match outcome {
                Ok(()) => final(self).last_message@ == "Stopped local web interface"@
                    && final(self).error_message == old(self).error_message,
                Err(e) => final(self).last_message@ == "failed to stop local web interface: "@ + e@
                    && final(self).error_message == Some(final(self).last_message),
            },
    {
        match outcome {
            Ok(()) => {
                self.last_message = String::from_str("Stopped local web interface");
            },
            Err(e) => {
                let m = String::from_str("failed to stop local web interface: ").concat(
                    e.as_str(),
                );
                self.report_error(m);
            },
        }
    }

    /// Records the outcome of a status refresh: success clears the pending error, a failure
    /// becomes the pending error and the last message.
    pub fn finish_refresh(&mut self, outcome: Result<(), String>)
        ensures
            final(self).config == old(self).config,
            final(self).snapshot == old(self).snapshot,
            final(self).current_exe == old(self).current_exe,
            match outcome {
                Ok(()) => final(self).error_message is None && final(self).last_message == old(
                    self,
                ).last_message,
                Err(e) => final(self).error_message == Some(e) && final(self).last_message == e,
            },
    {
        match outcome {
            Ok(()) => self.clear_error(),
            Err(e) => self.report_error(e),
        }
    }

    /// Records that the local web interface was started.
    pub fn local_web_started(&mut self)
        ensures
            final(self).last_message@ == "Started local web interface on "@
                + local_web_url_spec(),
            final(self).config == old(self).config,
            final(self).snapshot == old(self).snapshot,
            final(self).error_message == old(self).error_message,
            final(self).current_exe == old(self).current_exe,
    {
        self.last_message = String::from_str("Started local web interface on ").concat(
            "http://127.0.0.1:8088",
        );
    }
}


/// The saved exit node is applied only while connected with exit node use on, only when it is
/// an online peer of the snapshot named by the saved settings, and never when it already is
/// the current exit node.
pub proof fn lemma_applied_node_is_online_peer(t: TrayView, s: TailscaleSnapshotView)
    ensures
        node_to_apply_spec(t, s) matches Some(p) ==> {
            &&& is_connected(s)
            &&& t.config.use_exit_node
            &&& p.online
            &&& s.peers.contains(p)
            &&& preferred_peer(s, t.config) == Some(p)
            &&& !(s.current_exit_node_id.len() > 0 && s.current_exit_node_id == p.node_id)
        },
{
    crate::status::lemma_preferred_peer_is_listed(s, t.config);
}

/// After a reconnect the saved exit node is applied again: while connected with exit node use
/// on, a refresh switches to the saved peer when it is listed online, is not already the
/// current exit node, and no peer listed before it shares an identifier with it.
pub proof fn lemma_saved_node_reapplied(t: TrayView, s: TailscaleSnapshotView, i: int)
    requires
        is_connected(s),
        t.config.use_exit_node,
        0 <= i < s.peers.len(),
        t.config.preferred_exit_node_id == s.peers[i].node_id,
        t.config.preferred_exit_node_name == s.peers[i].host_name,
        t.config.preferred_exit_node_dns == s.peers[i].dns_name,
        t.config.preferred_exit_node_ip == s.peers[i].ip,
        exists|j: int| 0 <= j < 4 && (#[trigger] peer_identifiers(s.peers[i])[j]).len() > 0,
        forall|k: int|
            0 <= k < i ==> !identifiers_match(
                peer_identifiers(s.peers[i]),
                #[trigger] peer_identifiers(s.peers[k]),
            ),
        s.peers[i].online,
        !(s.current_exit_node_id.len() > 0 && s.current_exit_node_id == s.peers[i].node_id),
    ensures
        node_to_apply_spec(t, s) == Some(s.peers[i]),
{
    lemma_saved_peer_is_found(s, t.config, i);
    let p = preferred_peer(s, t.config)->0;
    let k = choose|k: int| 0 <= k <= i && s.peers[k] == p;
    if k < i {
        assert(peer_identifiers(s.peers[k]) == peer_identifiers(p));
        assert(false);
    }
}

/// The tray counts as connected exactly when the last status read says the daemon is
/// `Running`; before any read it is not connected.
pub proof fn lemma_connected_now_is_running(t: TrayView)
    ensures
        connected_now(t) <==> (t.snapshot matches Some(s) && s.backend_state == "Running"@),
{
}

/// The label of the current exit node from its trimmed name and address: `name (address)` when
/// both are known and differ, the name when only it is known or both agree, the address when
/// only it is known, `none` when neither is.
pub proof fn lemma_exit_label_cases(s: TailscaleSnapshotView)
    ensures
        trim_spec(s.current_exit_node_name).len() == 0 && trim_spec(s.current_exit_node_ip).len()
            > 0 ==> exit_label_spec(s) == trim_spec(s.current_exit_node_ip),
        trim_spec(s.current_exit_node_name).len() == 0 && trim_spec(s.current_exit_node_ip).len()
            == 0 ==> exit_label_spec(s) == "none"@,
        trim_spec(s.current_exit_node_name).len() > 0 && (trim_spec(s.current_exit_node_ip).len()
            == 0 || trim_spec(s.current_exit_node_ip) == trim_spec(s.current_exit_node_name))
            ==> exit_label_spec(s) == trim_spec(s.current_exit_node_name),
        trim_spec(s.current_exit_node_name).len() > 0 && trim_spec(s.current_exit_node_ip).len() > 0
            && trim_spec(s.current_exit_node_ip) != trim_spec(s.current_exit_node_name)
            ==> exit_label_spec(s) == trim_spec(s.current_exit_node_name) + " ("@ + trim_spec(
            s.current_exit_node_ip,
        ) + ")"@,
{
}

/// While connected with no pending error, the status line names the current exit node; one
/// known only by its address is shown by its trimmed address.
pub proof fn lemma_status_line_shows_exit_address(t: TrayView, s: TailscaleSnapshotView)
    requires
        t.error_message is None,
        t.snapshot == Some(s),
        s.backend_state == "Running"@,
    ensures
        status_line_spec(t) == "Status: on  Exit: "@ + exit_label_spec(s),
        trim_spec(s.current_exit_node_name).len() == 0 && trim_spec(s.current_exit_node_ip).len()
            > 0 ==> status_line_spec(t) == "Status: on  Exit: "@ + trim_spec(s.current_exit_node_ip),
{
    lemma_exit_label_cases(s);
}

} // verus!

