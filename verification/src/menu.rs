//! The tray menu as a flat list of entries: submenus open and close with marker entries.

use vstd::prelude::*;
use crate::status::{
    display_name_spec, is_connected, is_login_required, preferred_peer, ExitNodeChoice,
    ExitNodeChoiceView, TailscaleSnapshotView,
};
use crate::text::str_eq;
use crate::tray::{connected_now, exit_label_spec, status_line_spec, TailscaleTrayApp, TrayView};

verus! {

/// What activating a menu entry does.
#[derive(Debug)]
pub enum MenuAction {
    Nothing,
    ToggleConnection,
    ToggleLocalWebInterface,
    OpenLocalWebInterface,
    ToggleUseExitNode,
    ToggleLanAccess,
    ApplyExitNode(ExitNodeChoice),
    ClearExitNode,
    OpenLoginPage(String),
    OpenAdminConsole,
    ToggleAutostart,
    Refresh,
    OpenConfigFolder,
    Quit,
}

pub enum MenuActionView {
    Nothing,
    ToggleConnection,
    ToggleLocalWebInterface,
    OpenLocalWebInterface,
    ToggleUseExitNode,
    ToggleLanAccess,
    ApplyExitNode(ExitNodeChoiceView),
    ClearExitNode,
    OpenLoginPage(Seq<char>),
    OpenAdminConsole,
    ToggleAutostart,
    Refresh,
    OpenConfigFolder,
    Quit,
}

impl DeepView for MenuAction {
    type V = MenuActionView;

    open spec fn deep_view(&self) -> MenuActionView {
        match self {
            MenuAction::Nothing => MenuActionView::Nothing,
            MenuAction::ToggleConnection => MenuActionView::ToggleConnection,
            MenuAction::ToggleLocalWebInterface => MenuActionView::ToggleLocalWebInterface,
            MenuAction::OpenLocalWebInterface => MenuActionView::OpenLocalWebInterface,
            MenuAction::ToggleUseExitNode => MenuActionView::ToggleUseExitNode,
            MenuAction::ToggleLanAccess => MenuActionView::ToggleLanAccess,
            MenuAction::ApplyExitNode(p) => MenuActionView::ApplyExitNode(p.deep_view()),
            MenuAction::ClearExitNode => MenuActionView::ClearExitNode,
            MenuAction::OpenLoginPage(u) => MenuActionView::OpenLoginPage(u@),
            MenuAction::OpenAdminConsole => MenuActionView::OpenAdminConsole,
            MenuAction::ToggleAutostart => MenuActionView::ToggleAutostart,
            MenuAction::Refresh => MenuActionView::Refresh,
            MenuAction::OpenConfigFolder => MenuActionView::OpenConfigFolder,
            MenuAction::Quit => MenuActionView::Quit,
        }
    }
}

/// One entry of the flat menu.
#[derive(Debug)]
pub enum MenuEntry {
    Standard { label: String, enabled: bool, action: MenuAction },
    Checkmark { label: String, checked: bool, enabled: bool, action: MenuAction },
    Separator,
    /// Opens a submenu; the entries up to the matching `SubMenuEnd` belong to it.
    SubMenuStart { label: String },
    SubMenuEnd,
}

pub enum MenuEntryView {
    Standard { label: Seq<char>, enabled: bool, action: MenuActionView },
    Checkmark { label: Seq<char>, checked: bool, enabled: bool, action: MenuActionView },
    Separator,
    SubMenuStart { label: Seq<char> },
    SubMenuEnd,
}

impl DeepView for MenuEntry {
    type V = MenuEntryView;

    open spec fn deep_view(&self) -> MenuEntryView {
        match self {
            MenuEntry::Standard { label, enabled, action } => MenuEntryView::Standard {
                label: label@,
                enabled: *enabled,
                action: action.deep_view(),
            },
            MenuEntry::Checkmark { label, checked, enabled, action } => MenuEntryView::Checkmark {
                label: label@,
                checked: *checked,
                enabled: *enabled,
                action: action.deep_view(),
            },
            MenuEntry::Separator => MenuEntryView::Separator,
            MenuEntry::SubMenuStart { label } => MenuEntryView::SubMenuStart { label: label@ },
            MenuEntry::SubMenuEnd => MenuEntryView::SubMenuEnd,
        }
    }
}

/// An entry that shows text and does nothing.
pub open spec fn info_entry(label: Seq<char>) -> MenuEntryView {
    MenuEntryView::Standard { label, enabled: false, action: MenuActionView::Nothing }
}

/// An enabled entry with an action.
pub open spec fn action_entry(label: Seq<char>, action: MenuActionView) -> MenuEntryView {
    MenuEntryView::Standard { label, enabled: true, action }
}

/// The status line, then what the connection is going through or that a login is needed.
pub open spec fn status_section(t: TrayView) -> Seq<MenuEntryView> {
    seq![info_entry(status_line_spec(t))] + match t.snapshot {
        Some(s) => if is_connected(s) {
            seq![info_entry("Connected through: "@ + exit_label_spec(s))]
        } else if is_login_required(s) {
            seq![info_entry("Login required"@)]
        } else {
            Seq::empty()
        },
        None => Seq::empty(),
    }
}

/// A separator and the connect or disconnect entry.
pub open spec fn connection_section(t: TrayView) -> Seq<MenuEntryView> {
    seq![
        MenuEntryView::Separator,
        action_entry(
            if connected_now(t) {
                "Disconnect Tailscale"@
            } else {
                "Connect Tailscale"@
            },
            MenuActionView::ToggleConnection,
        ),
    ]
}

/// The submenu of the local web interface.
pub open spec fn web_section(running: bool) -> Seq<MenuEntryView> {
    seq![
        MenuEntryView::SubMenuStart { label: "Local web interface"@ },
        info_entry(
            if running {
                "Web interface: running"@
            } else {
                "Web interface: stopped"@
            },
        ),
        action_entry(
            if running {
                "Stop local web interface"@
            } else {
                "Run local web interface"@
            },
            MenuActionView::ToggleLocalWebInterface,
        ),
        MenuEntryView::Standard {
            label: "Open local web interface"@,
            enabled: running,
            action: MenuActionView::OpenLocalWebInterface,
        },
        MenuEntryView::SubMenuEnd,
    ]
}

/// A peer's label in the exit-node list: its display name, marked when it is the current exit
/// node and when it is the saved one.
pub open spec fn peer_label(
    s: TailscaleSnapshotView,
    saved: Option<ExitNodeChoiceView>,
    p: ExitNodeChoiceView,
) -> Seq<char> {
    let a = display_name_spec(p);
    let b = if s.current_exit_node_id == p.node_id {
        a + "  [current]"@
    } else {
        a
    };
    match saved {
        Some(c) => if c.node_id == p.node_id {
            b + "  [saved]"@
        } else {
            b
        },
        None => b,
    }
}

/// The entry that switches to `p`; offline peers are shown disabled.
pub open spec fn peer_entry(
    s: TailscaleSnapshotView,
    saved: Option<ExitNodeChoiceView>,
    p: ExitNodeChoiceView,
) -> MenuEntryView {
    MenuEntryView::Standard {
        label: peer_label(s, saved, p),
        enabled: p.online,
        action: MenuActionView::ApplyExitNode(p),
    }
}

/// The peers and a separator, or a note that there are none.
pub open spec fn choices_section(t: TrayView) -> Seq<MenuEntryView> {
    match t.snapshot {
        Some(s) => if s.peers.len() > 0 {
            let saved = preferred_peer(s, t.config);
            s.peers.map_values(|p: ExitNodeChoiceView| peer_entry(s, saved, p)) + seq![
                MenuEntryView::Separator,
            ]
        } else {
            seq![info_entry("No exit nodes found"@)]
        },
        None => seq![info_entry("No exit nodes found"@)],
    }
}

/// The exit-node submenu.
pub open spec fn exit_section(t: TrayView) -> Seq<MenuEntryView> {
    let info = match t.snapshot {
        Some(s) => if is_connected(s) {
            "Connected through: "@ + exit_label_spec(s)
        } else {
            "Exit node: off"@
        },
        None => "Exit node: off"@,
    };
    seq![
        MenuEntryView::SubMenuStart { label: "Exit node"@ },
        info_entry(info),
        MenuEntryView::Checkmark {
            label: "Use saved exit node"@,
            checked: t.config.use_exit_node,
            enabled: true,
            action: MenuActionView::ToggleUseExitNode,
        },
        MenuEntryView::Checkmark {
            label: "Allow LAN access via exit node"@,
            checked: t.config.exit_node_allow_lan_access,
            enabled: connected_now(t),
            action: MenuActionView::ToggleLanAccess,
        },
        MenuEntryView::SubMenuStart { label: "Choose exit node"@ },
    ] + choices_section(t) + seq![
        action_entry("Clear exit node"@, MenuActionView::ClearExitNode),
        MenuEntryView::SubMenuEnd,
        MenuEntryView::SubMenuEnd,
    ]
}

/// The admin submenu.
pub open spec fn admin_section(t: TrayView) -> Seq<MenuEntryView> {
    let login = match t.snapshot {
        Some(s) => if s.auth_url.len() > 0 {
            seq![action_entry("Open login page"@, MenuActionView::OpenLoginPage(s.auth_url))]
        } else {
            Seq::empty()
        },
        None => Seq::empty(),
    };
    seq![MenuEntryView::SubMenuStart { label: "Admin"@ }] + login + seq![
        action_entry("Open Tailscale admin console"@, MenuActionView::OpenAdminConsole),
        MenuEntryView::Checkmark {
            label: "Start automatically on login"@,
            checked: t.config.autostart_enabled,
            enabled: true,
            action: MenuActionView::ToggleAutostart,
        },
        MenuEntryView::SubMenuEnd,
    ]
}

/// A separator, refresh, the config folder and quit.
pub open spec fn tail_section() -> Seq<MenuEntryView> {
    seq![
        MenuEntryView::Separator,
        action_entry("Refresh now"@, MenuActionView::Refresh),
        action_entry("Open config folder"@, MenuActionView::OpenConfigFolder),
        action_entry("Quit"@, MenuActionView::Quit),
    ]
}

/// The whole menu for state `t`, with `running` telling whether the local web interface runs.
pub open spec fn menu_spec(t: TrayView, running: bool) -> Seq<MenuEntryView> {
    status_section(t) + connection_section(t) + web_section(running) + exit_section(t)
        + admin_section(t) + tail_section()
}

fn info(label: String) -> (r: MenuEntry)
    ensures
        r.deep_view() == info_entry(label@),
{
    MenuEntry::Standard { label, enabled: false, action: MenuAction::Nothing }
}

fn act(label: String, action: MenuAction) -> (r: MenuEntry)
    ensures
        r.deep_view() == action_entry(label@, action.deep_view()),
{
    MenuEntry::Standard { label, enabled: true, action }
}

fn push_entry(items: &mut Vec<MenuEntry>, e: MenuEntry)
    ensures
        final(items).deep_view() == old(items).deep_view().push(e.deep_view()),
{
    items.push(e);
    proof {
        assert(items.deep_view() =~= old(items).deep_view().push(e.deep_view()));
    }
}

fn lit(s: &str) -> (r: String)
    ensures
        r@ == s@,
{
    String::from_str(s)
}

impl TailscaleTrayApp {
    fn status_entries(&self, items: &mut Vec<MenuEntry>)
        ensures
            final(items).deep_view() == old(items).deep_view() + status_section(self.deep_view()),
    {
        let ghost start = items.deep_view();
        push_entry(items, info(self.status_line()));
        match &self.snapshot {
            Some(snapshot) => {
                if snapshot.connected() {
                    let label = self.current_exit_node_label(snapshot);
                    push_entry(items, info(lit("Connected through: ").concat(label.as_str())));
                } else if snapshot.login_required() {
                    push_entry(items, info(lit("Login required")));
                }
            },
            None => {},
        }
        proof {
            assert(items.deep_view() =~= start + status_section(self.deep_view()));
        }
    }

    fn is_connected_now(&self) -> (r: bool)
        ensures
            r == connected_now(self.deep_view()),
    {
        match &self.snapshot {
            Some(s) => s.connected(),
            None => false,
        }
    }

    fn choice_entries(&self, items: &mut Vec<MenuEntry>)
        ensures
            final(items).deep_view() == old(items).deep_view() + choices_section(self.deep_view()),
    {
        let ghost start = items.deep_view();
        match &self.snapshot {
            Some(snapshot) => {
                if snapshot.peers.len() > 0 {
                    let current_choice = snapshot.find_preferred_peer(&self.config);
                    let ghost sv = snapshot.deep_view();
                    let ghost saved = preferred_peer(sv, self.config.deep_view());
                    let n = snapshot.peers.len();
                    let mut i: usize = 0;
                    while i < n
                        invariant
                            n == snapshot.peers@.len(),
                            sv == snapshot.deep_view(),
                            i <= n,
                            match current_choice {
                                Some(c) => saved == Some(c.deep_view()),
                                None => saved is None,
                            },
                            items.deep_view() == start + sv.peers.take(i as int).map_values(
                                |p: ExitNodeChoiceView| peer_entry(sv, saved, p),
                            ),
                        decreases n - i,
                    {
                        let peer = snapshot.peers[i].clone();
                        let mut label = peer.display_name();
                        if str_eq(snapshot.current_exit_node_id.as_str(), peer.node_id.as_str()) {
                            label = label.concat("  [current]");
                        }
                        match &current_choice {
                            Some(choice) => {
                                if str_eq(choice.node_id.as_str(), peer.node_id.as_str()) {
                                    label = label.concat("  [saved]");
                                }
                            },
                            None => {},
                        }
                        let online = peer.online;
                        let ghost pv = peer.deep_view();
                        proof {
                            assert(sv.peers[i as int] == pv);
                            assert(label@ == peer_label(sv, saved, pv));
                        }
                        push_entry(
                            items,
                            MenuEntry::Standard {
                                label,
                                enabled: online,
                                action: MenuAction::ApplyExitNode(peer),
                            },
                        );
                        proof {
                            let f = |p: ExitNodeChoiceView| peer_entry(sv, saved, p);
                            assert(sv.peers.take(i + 1).map_values(f) =~= sv.peers.take(
                                i as int,
                            ).map_values(f).push(peer_entry(sv, saved, pv)));
                        }
                        i = i + 1;
                    }
                    push_entry(items, MenuEntry::Separator);
                    proof {
                        assert(sv.peers.take(n as int) =~= sv.peers);
                    }
                } else {
                    push_entry(items, info(lit("No exit nodes found")));
                }
            },
            None => {
                push_entry(items, info(lit("No exit nodes found")));
            },
        }
        proof {
            assert(items.deep_view() =~= start + choices_section(self.deep_view()));
        }
    }

    fn exit_entries(&self, items: &mut Vec<MenuEntry>)
        ensures
            final(items).deep_view() == old(items).deep_view() + exit_section(self.deep_view()),
    {
        let ghost start = items.deep_view();
        let connected = self.is_connected_now();
        let info_label = match &self.snapshot {
            Some(snapshot) => {
                if snapshot.connected() {
                    let label = self.current_exit_node_label(snapshot);
                    lit("Connected through: ").concat(label.as_str())
                } else {
                    lit("Exit node: off")
                }
            },
            None => lit("Exit node: off"),
        };
        push_entry(items, MenuEntry::SubMenuStart { label: lit("Exit node") });
        push_entry(items, info(info_label));
        push_entry(
            items,
            MenuEntry::Checkmark {
                label: lit("Use saved exit node"),
                checked: self.config.use_exit_node,
                enabled: true,
                action: MenuAction::ToggleUseExitNode,
            },
        );
        push_entry(
            items,
            MenuEntry::Checkmark {
                label: lit("Allow LAN access via exit node"),
                checked: self.config.exit_node_allow_lan_access,
                enabled: connected,
                action: MenuAction::ToggleLanAccess,
            },
        );
        push_entry(items, MenuEntry::SubMenuStart { label: lit("Choose exit node") });
        let ghost mid = items.deep_view();
        self.choice_entries(items);
        let ghost after = items.deep_view();
        push_entry(items, act(lit("Clear exit node"), MenuAction::ClearExitNode));
        push_entry(items, MenuEntry::SubMenuEnd);
        push_entry(items, MenuEntry::SubMenuEnd);
        proof {
            assert(items.deep_view() =~= start + exit_section(self.deep_view()));
        }
    }

    fn admin_entries(&self, items: &mut Vec<MenuEntry>)
        ensures
            final(items).deep_view() == old(items).deep_view() + admin_section(self.deep_view()),
    {
        let ghost start = items.deep_view();
        push_entry(items, MenuEntry::SubMenuStart { label: lit("Admin") });
        match &self.snapshot {
            Some(snapshot) => {
                if !snapshot.auth_url.as_str().is_empty() {
                    let auth_url = snapshot.auth_url.clone();
                    push_entry(
                        items,
                        act(lit("Open login page"), MenuAction::OpenLoginPage(auth_url)),
                    );
                }
            },
            None => {},
        }
        push_entry(items, act(lit("Open Tailscale admin console"), MenuAction::OpenAdminConsole));
        push_entry(
            items,
            MenuEntry::Checkmark {
                label: lit("Start automatically on login"),
                checked: self.config.autostart_enabled,
                enabled: true,
                action: MenuAction::ToggleAutostart,
            },
        );
        push_entry(items, MenuEntry::SubMenuEnd);
        proof {
            assert(items.deep_view() =~= start + admin_section(self.deep_view()));
        }
    }

    /// The tray menu; `local_web_running` tells whether the local web interface runs.
    pub fn rebuild_menu(&self, local_web_running: bool) -> (r: Vec<MenuEntry>)
        ensures
            r.deep_view() == menu_spec(self.deep_view(), local_web_running),
    {
        let mut items: Vec<MenuEntry> = Vec::new();
        proof {
            assert(items.deep_view() =~= Seq::<MenuEntryView>::empty());
        }
        self.status_entries(&mut items);
        let ghost s1 = items.deep_view();
        let connected = self.is_connected_now();
        push_entry(&mut items, MenuEntry::Separator);
        let label = if connected {
            lit("Disconnect Tailscale")
        } else {
            lit("Connect Tailscale")
        };
        push_entry(&mut items, act(label, MenuAction::ToggleConnection));
        proof {
            assert(items.deep_view() =~= s1 + connection_section(self.deep_view()));
        }
        let ghost s2 = items.deep_view();
        push_entry(&mut items, MenuEntry::SubMenuStart { label: lit("Local web interface") });
        let status = if local_web_running {
            lit("Web interface: running")
        } else {
            lit("Web interface: stopped")
        };
        push_entry(&mut items, info(status));
        let toggle = if local_web_running {
            lit("Stop local web interface")
        } else {
            lit("Run local web interface")
        };
        push_entry(&mut items, act(toggle, MenuAction::ToggleLocalWebInterface));
        push_entry(
            &mut items,
            MenuEntry::Standard {
                label: lit("Open local web interface"),
                enabled: local_web_running,
                action: MenuAction::OpenLocalWebInterface,
            },
        );
        push_entry(&mut items, MenuEntry::SubMenuEnd);
        proof {
            assert(items.deep_view() =~= s2 + web_section(local_web_running));
        }
        self.exit_entries(&mut items);
        self.admin_entries(&mut items);
        let ghost s5 = items.deep_view();
        push_entry(&mut items, MenuEntry::Separator);
        push_entry(&mut items, act(lit("Refresh now"), MenuAction::Refresh));
        push_entry(&mut items, act(lit("Open config folder"), MenuAction::OpenConfigFolder));
        push_entry(&mut items, act(lit("Quit"), MenuAction::Quit));
        proof {
            assert(items.deep_view() =~= s5 + tail_section());
            assert(items.deep_view() =~= menu_spec(self.deep_view(), local_web_running));
        }
        items
    }
}

/// The entry that opens the exit-node submenu.
pub open spec fn exit_submenu_start() -> MenuEntryView {
    MenuEntryView::SubMenuStart { label: "Exit node"@ }
}

/// No entry of `sec` opens the exit-node submenu.
spec fn no_exit_start(sec: Seq<MenuEntryView>) -> bool {
    forall|k: int| 0 <= k < sec.len() ==> sec[k] != exit_submenu_start()
}

proof fn lemma_section_concat(x: Seq<MenuEntryView>, y: Seq<MenuEntryView>)
    requires
        no_exit_start(x),
        no_exit_start(y),
    ensures
        no_exit_start(x + y),
{
    assert forall|k: int| 0 <= k < (x + y).len() implies (x + y)[k] != exit_submenu_start() by {
        if k < x.len() {
            assert((x + y)[k] == x[k]);
        } else {
            assert((x + y)[k] == y[k - x.len()]);
        }
    }
}

/// The menu opens the exit-node submenu once, and the entry right after the opening is an
/// inactive line that names the exit node the traffic goes through while the daemon is
/// `Running`, and reads `Exit node: off` otherwise.
pub proof fn lemma_exit_submenu_info(t: TrayView, running: bool)
    ensures
        exists|i: int|
            0 <= i && i + 1 < menu_spec(t, running).len() && #[trigger] menu_spec(t, running)[i]
                == exit_submenu_start(),
        forall|i: int|
            0 <= i && i + 1 < menu_spec(t, running).len() && #[trigger] menu_spec(t, running)[i]
                == exit_submenu_start() ==> menu_spec(t, running)[i + 1] == (MenuEntryView::Standard {
                label: match t.snapshot {
                    Some(s) => if s.backend_state == "Running"@ {
                        "Connected through: "@ + exit_label_spec(s)
                    } else {
                        "Exit node: off"@
                    },
                    None => "Exit node: off"@,
                },
                enabled: false,
                action: MenuActionView::Nothing,
            }),
{
    reveal_strlit("Exit node");
    reveal_strlit("Local web interface");
    reveal_strlit("Choose exit node");
    reveal_strlit("Admin");
    let a = status_section(t);
    let b = connection_section(t);
    let c = web_section(running);
    let d = exit_section(t);
    let e = admin_section(t);
    let f = tail_section();
    let m = menu_spec(t, running);
    let p2 = a + b + c;
    let ch = choices_section(t);
    let head = seq![
        MenuEntryView::SubMenuStart { label: "Exit node"@ },
        d[1],
        d[2],
        d[3],
        MenuEntryView::SubMenuStart { label: "Choose exit node"@ },
    ];
    let foot = seq![
        action_entry("Clear exit node"@, MenuActionView::ClearExitNode),
        MenuEntryView::SubMenuEnd,
        MenuEntryView::SubMenuEnd,
    ];
    assert(d =~= head + ch + foot);
    // Every section but the exit submenu's own opening holds no entry that opens it.
    assert(no_exit_start(a)) by {
        assert forall|k: int| 0 <= k < a.len() implies a[k] != exit_submenu_start() by {
            if k == 0 {
                assert(a[0] == info_entry(status_line_spec(t)));
            } else {
                assert(a[k] is Standard);
            }
        }
    }
    assert(no_exit_start(b));
    assert(no_exit_start(c)) by {
        assert("Local web interface"@.len() != "Exit node"@.len());
    }
    assert(no_exit_start(ch)) by {
        assert forall|k: int| 0 <= k < ch.len() implies ch[k] != exit_submenu_start() by {
            match t.snapshot {
                Some(s) => if s.peers.len() > 0 {
                    let saved = preferred_peer(s, t.config);
                    let ps = s.peers.map_values(|p: ExitNodeChoiceView| peer_entry(s, saved, p));
                    if k < ps.len() {
                        assert(ch[k] == ps[k]);
                        assert(ps[k] == peer_entry(s, saved, s.peers[k]));
                    } else {
                        assert(ch[k] == MenuEntryView::Separator);
                    }
                },
                None => {},
            }
        }
    }
    assert(no_exit_start(foot));
    assert(no_exit_start(head.drop_first())) by {
        assert("Choose exit node"@.len() != "Exit node"@.len());
        assert forall|k: int| 0 <= k < head.drop_first().len() implies head.drop_first()[k]
            != exit_submenu_start() by {
            assert(head.drop_first()[k] == head[k + 1]);
        }
    }
    assert(no_exit_start(e)) by {
        assert("Admin"@.len() != "Exit node"@.len());
        assert forall|k: int| 0 <= k < e.len() implies e[k] != exit_submenu_start() by {
            match t.snapshot {
                Some(s) => {
                    if s.auth_url.len() > 0 && k == 1 {
                        assert(e[1] is Standard);
                    }
                },
                None => {},
            }
        }
    }
    assert(no_exit_start(f));
    lemma_section_concat(a, b);
    lemma_section_concat(a + b, c);
    lemma_section_concat(head.drop_first(), ch);
    lemma_section_concat(head.drop_first() + ch, foot);
    lemma_section_concat(e, f);
    let rest = head.drop_first() + ch + foot;
    let tail = e + f;
    lemma_section_concat(rest, tail);
    assert(m =~= p2 + seq![exit_submenu_start()] + (rest + tail));
    let i0 = p2.len() as int;
    assert(m[i0] == exit_submenu_start());
    assert(m[i0 + 1] == d[1]);
    assert forall|i: int|
        0 <= i && i + 1 < m.len() && #[trigger] m[i] == exit_submenu_start() implies i == i0 by {
        if i < i0 {
            assert(m[i] == p2[i]);
        } else if i > i0 {
            assert(m[i] == (rest + tail)[i - i0 - 1]);
        }
    }
}

} // verus!

