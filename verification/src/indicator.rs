//! What the tray shows besides the menu: its status, icons, title and tooltip.

use vstd::prelude::*;
use crate::icon::{icon_color, icon_pixels, ICON_BYTES, col_of, row_of};
use crate::status::{is_connected, is_login_required};
use crate::tray::{app_title, status_line_spec, TailscaleTrayApp, TrayView};

verus! {

/// Whether the tray asks for attention.
#[derive(PartialEq, Eq, Debug, Clone, Copy)]
pub enum TrayStatus {
    Active,
    NeedsAttention,
}

/// The items joined with `sep` between them.
pub open spec fn join_spec(items: Seq<Seq<char>>, sep: Seq<char>) -> Seq<char>
    decreases items.len(),
{
    if items.len() == 0 {
        Seq::empty()
    } else if items.len() == 1 {
        items[0]
    } else {
        join_spec(items.drop_last(), sep) + sep + items.last()
    }
}

/// Joins the strings with `sep` between them (`[String]::join`).
pub fn join(items: &Vec<String>, sep: &str) -> (r: String)
    ensures
        r@ == join_spec(items.deep_view(), sep@),
{
    let mut out = String::new();
    let n = items.len();
    let mut i: usize = 0;
    while i < n
        invariant
            n == items@.len(),
            i <= n,
            out@ == join_spec(items.deep_view().take(i as int), sep@),
        decreases n - i,
    {
        if i > 0 {
            out.append(sep);
        }
        out.append(items[i].as_str());
        proof {
            let t = items.deep_view().take(i + 1);
            assert(t.drop_last() =~= items.deep_view().take(i as int));
            if i == 0 {
                assert(items.deep_view().take(0) =~= Seq::<Seq<char>>::empty());
            }
        }
        i = i + 1;
    }
    proof {
        assert(items.deep_view().take(n as int) =~= items.deep_view());
    }
    out
}

/// The tooltip text: the status line, this device, its addresses, the local web interface and
/// the last message.
pub open spec fn tool_tip_spec(t: TrayView, running: bool) -> Seq<char> {
    match t.snapshot {
        Some(s) => {
            let l1 = seq![status_line_spec(t), "Self: "@ + s.self_host + " "@ + s.self_dns];
            let l2 = if s.self_ips.len() > 0 {
                l1.push("IPs: "@ + join_spec(s.self_ips, ", "@))
            } else {
                l1
            };
            let l3 = l2.push(
                "Local web: "@ + if running {
                    "running"@
                } else {
                    "stopped"@
                },
            );
            let l4 = if t.last_message.len() > 0 {
                l3.push("Last: "@ + t.last_message)
            } else {
                l3
            };
            join_spec(l4, "\n"@)
        },
        None => if t.last_message.len() > 0 {
            status_line_spec(t) + "\nLast: "@ + t.last_message
        } else {
            status_line_spec(t)
        },
    }
}

/// Icon background and foreground: green arrows when connected, yellow when a login is
/// needed, light grey otherwise, all on black.
pub open spec fn icon_colors_spec(t: TrayView) -> (Seq<u8>, Seq<u8>) {
    let black = seq![0xffu8, 0x00, 0x00, 0x00];
    match t.snapshot {
        Some(s) => if is_connected(s) {
            (black, seq![0xffu8, 0x44, 0xff, 0x44])
        } else if is_login_required(s) {
            (black, seq![0xffu8, 0xff, 0xf2, 0x66])
        } else {
            (black, seq![0xffu8, 0xf0, 0xf0, 0xf0])
        },
        None => (black, seq![0xffu8, 0xf0, 0xf0, 0xf0]),
    }
}

/// Colours of the attention icon: light red arrows on dark red.
pub open spec fn attention_colors_spec() -> (Seq<u8>, Seq<u8>) {
    (seq![0xffu8, 0x5a, 0x00, 0x00], seq![0xffu8, 0xff, 0x66, 0x66])
}

/// The tray's identifier.
pub fn tray_id() -> (r: String)
    ensures
        r@ == "tailscale-ui"@,
{
    String::from_str("tailscale-ui")
}

/// The tray's title with the version.
pub fn tray_title() -> (r: String)
    ensures
        r@ == "Tailscale UI 0.1.2"@,
{
    String::from_str("Tailscale UI 0.1.2")
}

/// The title of the tooltip.
pub fn tool_tip_title() -> (r: String)
    ensures
        r@ == app_title(),
{
    String::from_str("Tailscale UI")
}

impl TailscaleTrayApp {
    /// The tray asks for attention while an error is pending.
    pub fn status(&self) -> (r: TrayStatus)
        ensures
            r == (if self.error_message is Some {
                TrayStatus::NeedsAttention
            } else {
                TrayStatus::Active
            }),
    {
        if self.error_message.is_some() {
            TrayStatus::NeedsAttention
        } else {
            TrayStatus::Active
        }
    }

    /// The icon is given as a bitmap, so its theme name is empty.
    pub fn icon_name(&self) -> (r: String)
        ensures
            r@ == Seq::<char>::empty(),
    {
        String::new()
    }

    /// Background and foreground colours of the icon.
    pub fn icon_colors(&self) -> (r: ([u8; 4], [u8; 4]))
        ensures
            (r.0@, r.1@) == icon_colors_spec(self.deep_view()),
    {
        let black = crate::icon::argb(0xff, 0x00, 0x00, 0x00);
        match &self.snapshot {
            Some(snapshot) => {
                if snapshot.connected() {
                    (black, crate::icon::argb(0xff, 0x44, 0xff, 0x44))
                } else if snapshot.login_required() {
                    (black, crate::icon::argb(0xff, 0xff, 0xf2, 0x66))
                } else {
                    (black, crate::icon::argb(0xff, 0xf0, 0xf0, 0xf0))
                }
            },
            None => (black, crate::icon::argb(0xff, 0xf0, 0xf0, 0xf0)),
        }
    }

    /// The icon bitmap for the current state.
    pub fn icon_pixmap(&self) -> (r: Vec<u8>)
        ensures
            r@.len() == ICON_BYTES,
            forall|k: int|
                0 <= k < ICON_BYTES ==> #[trigger] r@[k] == icon_color(
                    icon_colors_spec(self.deep_view()).0,
                    icon_colors_spec(self.deep_view()).1,
                    col_of(k),
                    row_of(k),
                )[k % 4],
    {
        let (bg, fg) = self.icon_colors();
        icon_pixels(bg, fg)
    }

    /// The attention icon: only while an error is pending.
    pub fn attention_icon_pixmap(&self) -> (r: Option<Vec<u8>>)
        ensures
            match r {
                None => self.error_message is None,
                Some(p) => self.error_message is Some && p@.len() == ICON_BYTES && forall|k: int|
                    0 <= k < ICON_BYTES ==> #[trigger] p@[k] == icon_color(
                        attention_colors_spec().0,
                        attention_colors_spec().1,
                        col_of(k),
                        row_of(k),
                    )[k % 4],
            },
    {
        if self.error_message.is_none() {
            return None;
        }
        Some(
            icon_pixels(
                crate::icon::argb(0xff, 0x5a, 0x00, 0x00),
                crate::icon::argb(0xff, 0xff, 0x66, 0x66),
            ),
        )
    }

    /// The theme icon shown for attention: `dialog-error` while an error is pending.
    pub fn attention_icon_name(&self) -> (r: String)
        ensures
            r@ == (if self.error_message is Some {
                "dialog-error"@
            } else {
                Seq::<char>::empty()
            }),
    {
        if self.error_message.is_some() {
            String::from_str("dialog-error")
        } else {
            String::new()
        }
    }

    /// The tooltip text; `local_web_running` tells whether the local web interface runs.
    pub fn tool_tip(&self, local_web_running: bool) -> (r: String)
        ensures
            r@ == tool_tip_spec(self.deep_view(), local_web_running),
    {
        match &self.snapshot {
            Some(snapshot) => {
                let mut lines: Vec<String> = Vec::new();
                lines.push(self.status_line());
                let self_line = String::from_str("Self: ").concat(snapshot.self_host.as_str()).concat(
                    " ",
                ).concat(snapshot.self_dns.as_str());
                lines.push(self_line);
                if snapshot.self_ips.len() > 0 {
                    let ips = join(&snapshot.self_ips, ", ");
                    lines.push(String::from_str("IPs: ").concat(ips.as_str()));
                }
                let web = if local_web_running {
                    "running"
                } else {
                    "stopped"
                };
                lines.push(String::from_str("Local web: ").concat(web));
                if !self.last_message.as_str().is_empty() {
                    lines.push(String::from_str("Last: ").concat(self.last_message.as_str()));
                }
                proof {
                    let t = self.deep_view();
                    let s = t.snapshot->0;
                    let l1 = seq![status_line_spec(t), "Self: "@ + s.self_host + " "@ + s.self_dns];
                    let l2 = if s.self_ips.len() > 0 {
                        l1.push("IPs: "@ + join_spec(s.self_ips, ", "@))
                    } else {
                        l1
                    };
                    let l3 = l2.push(
                        "Local web: "@ + if local_web_running {
                            "running"@
                        } else {
                            "stopped"@
                        },
                    );
                    let l4 = if t.last_message.len() > 0 {
                        l3.push("Last: "@ + t.last_message)
                    } else {
                        l3
                    };
                    assert(lines.deep_view() =~= l4);
                }
                join(&lines, "\n")
            },
            None => {
                let status = self.status_line();
                if !self.last_message.as_str().is_empty() {
                    status.concat("\nLast: ").concat(self.last_message.as_str())
                } else {
                    status
                }
            },
        }
    }
}

/// The icon is drawn on black; its arrows are green exactly when the daemon is `Running`,
/// yellow when it is not running and offers a login URL, and light grey when it is neither or
/// nothing has been read yet.
pub proof fn lemma_icon_colors_by_state(t: TrayView)
    ensures
        icon_colors_spec(t).0 == seq![0xffu8, 0x00, 0x00, 0x00],
        icon_colors_spec(t).1 == seq![0xffu8, 0x44, 0xff, 0x44] <==> (t.snapshot matches Some(s)
            && s.backend_state == "Running"@),
        (t.snapshot matches Some(s) && s.backend_state != "Running"@ && s.auth_url.len() > 0)
            ==> icon_colors_spec(t).1 == seq![0xffu8, 0xff, 0xf2, 0x66],
        (t.snapshot matches Some(s) && s.backend_state != "Running"@ && s.auth_url.len() == 0)
            ==> icon_colors_spec(t).1 == seq![0xffu8, 0xf0, 0xf0, 0xf0],
        t.snapshot is None ==> icon_colors_spec(t).1 == seq![0xffu8, 0xf0, 0xf0, 0xf0],
{
    let green = seq![0xffu8, 0x44, 0xff, 0x44];
    let yellow = seq![0xffu8, 0xff, 0xf2, 0x66];
    let grey = seq![0xffu8, 0xf0, 0xf0, 0xf0];
    assert(yellow[1] != green[1]);
    assert(grey[1] != green[1]);
}

} // verus!

