//! Tailscale status: exit-node choices, the snapshot read from `tailscale status --json`, and
//! the lookup of the saved exit node among the peers.

use vstd::prelude::*;
use crate::config::AppConfig;
use crate::json::{
    first_text, first_text_field, flag_field, flag_of, id_field, id_of, member, member_of,
    member_opt, name_field, name_of, string_list, string_list_field, text_field, text_of, val,
    JsonValue,
};
use crate::text::{
    chars_lt, lemma_chars_lt_irreflexive, lemma_chars_lt_total, lemma_chars_lt_transitive, lowercase, str_eq, str_lt, strip_trailing, to_lowercase, trim, trim_end_class,
    trim_spec, CharClass,
};

verus! {

/// A peer that offers itself as an exit node.
#[derive(Debug)]
pub struct ExitNodeChoice {
    pub node_id: String,
    pub host_name: String,
    pub dns_name: String,
    pub ip: String,
    pub online: bool,
}

pub struct ExitNodeChoiceView {
    pub node_id: Seq<char>,
    pub host_name: Seq<char>,
    pub dns_name: Seq<char>,
    pub ip: Seq<char>,
    pub online: bool,
}

impl DeepView for ExitNodeChoice {
    type V = ExitNodeChoiceView;

    open spec fn deep_view(&self) -> ExitNodeChoiceView {
        ExitNodeChoiceView {
            node_id: self.node_id@,
            host_name: self.host_name@,
            dns_name: self.dns_name@,
            ip: self.ip@,
            online: self.online,
        }
    }
}

impl Clone for ExitNodeChoice {
    fn clone(&self) -> (r: Self)
        ensures
            r == *self,
    {
        ExitNodeChoice {
            node_id: self.node_id.clone(),
            host_name: self.host_name.clone(),
            dns_name: self.dns_name.clone(),
            ip: self.ip.clone(),
            online: self.online,
        }
    }
}

/// The host name, else the DNS name, else the address.
pub open spec fn choice_label(p: ExitNodeChoiceView) -> Seq<char> {
    if p.host_name.len() > 0 {
        p.host_name
    } else if p.dns_name.len() > 0 {
        p.dns_name
    } else {
        p.ip
    }
}

/// `label (ip)` for an online peer, `label (ip, offline)` for an offline one.
pub open spec fn display_name_spec(p: ExitNodeChoiceView) -> Seq<char> {
    if p.online {
        choice_label(p) + " ("@ + p.ip + ")"@
    } else {
        choice_label(p) + " ("@ + p.ip + ", offline)"@
    }
}

impl ExitNodeChoice {
    /// The label of the peer in the exit-node menu.
    pub fn display_name(&self) -> (r: String)
        ensures
            r@ == display_name_spec(self.deep_view()),
    {
        let label = if !self.host_name.as_str().is_empty() {
            self.host_name.clone()
        } else if !self.dns_name.as_str().is_empty() {
            self.dns_name.clone()
        } else {
            self.ip.clone()
        };
        if self.online {
            label.concat(" (").concat(self.ip.as_str()).concat(")")
        } else {
            label.concat(" (").concat(self.ip.as_str()).concat(", offline)")
        }
    }
}

/// What the tray knows of the Tailscale daemon after one status read.
#[derive(Debug)]
pub struct TailscaleSnapshot {
    pub backend_state: String,
    pub auth_url: String,
    pub self_host: String,
    pub self_dns: String,
    pub self_ips: Vec<String>,
    pub current_exit_node_id: String,
    pub current_exit_node_name: String,
    pub current_exit_node_ip: String,
    pub peers: Vec<ExitNodeChoice>,
}

pub struct TailscaleSnapshotView {
    pub backend_state: Seq<char>,
    pub auth_url: Seq<char>,
    pub self_host: Seq<char>,
    pub self_dns: Seq<char>,
    pub self_ips: Seq<Seq<char>>,
    pub current_exit_node_id: Seq<char>,
    pub current_exit_node_name: Seq<char>,
    pub current_exit_node_ip: Seq<char>,
    pub peers: Seq<ExitNodeChoiceView>,
}

impl DeepView for TailscaleSnapshot {
    type V = TailscaleSnapshotView;

    open spec fn deep_view(&self) -> TailscaleSnapshotView {
        TailscaleSnapshotView {
            backend_state: self.backend_state@,
            auth_url: self.auth_url@,
            self_host: self.self_host@,
            self_dns: self.self_dns@,
            self_ips: self.self_ips.deep_view(),
            current_exit_node_id: self.current_exit_node_id@,
            current_exit_node_name: self.current_exit_node_name@,
            current_exit_node_ip: self.current_exit_node_ip@,
            peers: self.peers.deep_view(),
        }
    }
}

/// The daemon is up and connected.
pub open spec fn is_connected(s: TailscaleSnapshotView) -> bool {
    s.backend_state == "Running"@
}

/// The daemon waits for an interactive login.
pub open spec fn is_login_required(s: TailscaleSnapshotView) -> bool {
    s.auth_url.len() > 0 && s.backend_state != "Running"@
}

/// A connected daemon never asks for a login.
pub proof fn lemma_login_required_means_disconnected(s: TailscaleSnapshotView)
    ensures
        is_login_required(s) ==> !is_connected(s),
{
}

/// A name or address as it is compared: trimmed, without trailing dots, lowercased.
pub open spec fn normalize_spec(v: Seq<char>) -> Seq<char> {
    lowercase(strip_trailing(trim_spec(v), CharClass::Dot))
}

/// The saved exit node's identifiers, normalized: id, name, DNS name, address.
pub open spec fn config_candidates(c: crate::config::AppConfigView) -> Seq<Seq<char>> {
    seq![
        normalize_spec(c.preferred_exit_node_id),
        normalize_spec(c.preferred_exit_node_name),
        normalize_spec(c.preferred_exit_node_dns),
        normalize_spec(c.preferred_exit_node_ip),
    ]
}

/// A peer's identifiers, normalized: id, host name, DNS name, address.
pub open spec fn peer_identifiers(p: ExitNodeChoiceView) -> Seq<Seq<char>> {
    seq![
        normalize_spec(p.node_id),
        normalize_spec(p.host_name),
        normalize_spec(p.dns_name),
        normalize_spec(p.ip),
    ]
}

/// Some non-empty candidate equals some identifier.
pub open spec fn identifiers_match(candidates: Seq<Seq<char>>, ids: Seq<Seq<char>>) -> bool {
    exists|i: int, j: int|
        0 <= i < candidates.len() && 0 <= j < ids.len() && candidates[i].len() > 0
            && #[trigger] candidates[i] == #[trigger] ids[j]
}

/// Index of the first identifier list that matches the candidates.
pub open spec fn first_match(candidates: Seq<Seq<char>>, ids: Seq<Seq<Seq<char>>>) -> Option<int>
    decreases ids.len(),
{
    if ids.len() == 0 {
        None
    } else {
        match first_match(candidates, ids.drop_last()) {
            Some(i) => Some(i),
            None => if identifiers_match(candidates, ids.last()) {
                Some(ids.len() - 1)
            } else {
                None
            },
        }
    }
}

/// The first peer that the saved settings name by id, host name, DNS name or address.
pub open spec fn preferred_peer(
    s: TailscaleSnapshotView,
    c: crate::config::AppConfigView,
) -> Option<ExitNodeChoiceView> {
    match first_match(config_candidates(c), s.peers.map_values(|p| peer_identifiers(p))) {
        Some(i) => Some(s.peers[i]),
        None => None,
    }
}

/// Whether some non-empty candidate equals some identifier.
pub fn identifiers_overlap(candidates: &Vec<String>, ids: &Vec<String>) -> (r: bool)
    ensures
        r == identifiers_match(candidates.deep_view(), ids.deep_view()),
{
    let n = candidates.len();
    let m = ids.len();
    let mut i: usize = 0;
    while i < n
        invariant
            n == candidates@.len(),
            m == ids@.len(),
            i <= n,
            forall|a: int, b: int|
                0 <= a < i && 0 <= b < m && candidates@[a]@.len() > 0 ==> candidates@[a]@
                    != ids@[b]@,
        decreases n - i,
    {
        if !candidates[i].as_str().is_empty() {
            let mut j: usize = 0;
            while j < m
                invariant
                    n == candidates@.len(),
                    m == ids@.len(),
                    i < n,
                    j <= m,
                    candidates@[i as int]@.len() > 0,
                    forall|b: int| 0 <= b < j ==> candidates@[i as int]@ != ids@[b]@,
                decreases m - j,
            {
                if str_eq(candidates[i].as_str(), ids[j].as_str()) {
                    proof {
                        assert(candidates.deep_view()[i as int] == ids.deep_view()[j as int]);
                        assert(candidates.deep_view()[i as int].len() > 0);
                    }
                    return true;
                }
                j = j + 1;
            }
        }
        i = i + 1;
    }
    proof {
        if identifiers_match(candidates.deep_view(), ids.deep_view()) {
            let (a, b) = choose|a: int, b: int|
                0 <= a < candidates.deep_view().len() && 0 <= b < ids.deep_view().len()
                    && candidates.deep_view()[a].len() > 0 && #[trigger] candidates.deep_view()[a]
                    == #[trigger] ids.deep_view()[b];
            assert(candidates@[a]@ == ids@[b]@);
        }
    }
    false
}

/// Index of the first peer whose normalized identifiers share a non-empty value with the
/// normalized candidates.
pub fn pick_preferred(candidates: &Vec<String>, peer_ids: &Vec<Vec<String>>) -> (r: Option<usize>)
    ensures
        match r {
            Some(i) => i < peer_ids@.len() && first_match(candidates.deep_view(), peer_ids.deep_view())
                == Some(i as int),
            None => first_match(candidates.deep_view(), peer_ids.deep_view()) is None,
        },
{
    let n = peer_ids.len();
    let mut i: usize = 0;
    while i < n
        invariant
            n == peer_ids@.len(),
            i <= n,
            first_match(candidates.deep_view(), peer_ids.deep_view().take(i as int)) is None,
        decreases n - i,
    {
        let hit = identifiers_overlap(candidates, &peer_ids[i]);
        proof {
            let t = peer_ids.deep_view().take(i + 1);
            assert(t.drop_last() =~= peer_ids.deep_view().take(i as int));
            assert(t.last() == peer_ids@[i as int].deep_view());
        }
        if hit {
            proof {
                lemma_first_match_prefix(
                    candidates.deep_view(),
                    peer_ids.deep_view(),
                    i as int,
                );
            }
            return Some(i);
        }
        i = i + 1;
    }
    proof {
        assert(peer_ids.deep_view().take(n as int) =~= peer_ids.deep_view());
    }
    None
}

/// A match found in a prefix is the first match of the whole list.
proof fn lemma_first_match_prefix(c: Seq<Seq<char>>, ids: Seq<Seq<Seq<char>>>, i: int)
    requires
        0 <= i < ids.len(),
        first_match(c, ids.take(i + 1)) == Some(i),
    ensures
        first_match(c, ids) == Some(i),
    decreases ids.len(),
{
    if ids.len() == i + 1 {
        assert(ids.take(i + 1) =~= ids);
    } else {
        assert(ids.drop_last().take(i + 1) =~= ids.take(i + 1));
        lemma_first_match_prefix(c, ids.drop_last(), i);
    }
}

/// One of the settings' identifiers, normalized.
fn normalized(value: &String) -> (r: String)
    ensures
        r@ == normalize_spec(value@),
{
    TailscaleSnapshot::normalize(value.as_str())
}

/// The choice that a node of the `Peer` map stands for, when it offers itself as an exit node
/// and has an address.
pub open spec fn exit_choice_of(node: JsonValue) -> Option<ExitNodeChoiceView> {
    let n = Some(node);
    let ips = string_list(member_of(n, "TailscaleIPs"@));
    if !flag_of(member_of(n, "ExitNodeOption"@)) || ips.len() == 0 {
        None
    } else {
        Some(
            ExitNodeChoiceView {
                node_id: id_of(member_of(n, "ID"@)),
                host_name: text_of(member_of(n, "HostName"@)),
                dns_name: strip_trailing(text_of(member_of(n, "DNSName"@)), CharClass::Dot),
                ip: ips[0],
                online: flag_of(member_of(n, "Online"@)),
            },
        )
    }
}

/// The exit-node choices among the object members of the `Peer` map, in map order.
pub open spec fn exit_choices(entries: Seq<(String, JsonValue)>) -> Seq<ExitNodeChoiceView>
    decreases entries.len(),
{
    if entries.len() == 0 {
        Seq::empty()
    } else {
        let rest = exit_choices(entries.drop_last());
        let node = entries.last().1;
        match node {
            JsonValue::Object(_) => match exit_choice_of(node) {
                Some(c) => rest.push(c),
                None => rest,
            },
            _ => rest,
        }
    }
}

/// Strict order of the peer list: online before offline, then by sort name, then by address.
pub open spec fn peer_before(a: (ExitNodeChoiceView, Seq<char>), b: (ExitNodeChoiceView, Seq<char>)) -> bool {
    ||| a.0.online && !b.0.online
    ||| a.0.online == b.0.online && chars_lt(a.1, b.1)
    ||| a.0.online == b.0.online && a.1 == b.1 && chars_lt(a.0.ip, b.0.ip)
}

/// `e` inserted into `s` after every element that does not sort after it.
pub open spec fn insert_peer(
    s: Seq<(ExitNodeChoiceView, Seq<char>)>,
    e: (ExitNodeChoiceView, Seq<char>),
) -> Seq<(ExitNodeChoiceView, Seq<char>)>
    decreases s.len(),
{
    if s.len() == 0 {
        seq![e]
    } else if peer_before(e, s.last()) {
        insert_peer(s.drop_last(), e).push(s.last())
    } else {
        s.push(e)
    }
}

/// Stable sort by `peer_before`: equal keys keep their order.
pub open spec fn sort_peers(s: Seq<(ExitNodeChoiceView, Seq<char>)>) -> Seq<
    (ExitNodeChoiceView, Seq<char>),
>
    decreases s.len(),
{
    if s.len() == 0 {
        s
    } else {
        insert_peer(sort_peers(s.drop_last()), s.last())
    }
}

/// Each choice paired with its sort name.
pub open spec fn keyed(peers: Seq<ExitNodeChoiceView>, names: Seq<Seq<char>>) -> Seq<
    (ExitNodeChoiceView, Seq<char>),
> {
    Seq::new(peers.len(), |i: int| (peers[i], names[i]))
}

/// The choices of a keyed list.
pub open spec fn unkeyed(s: Seq<(ExitNodeChoiceView, Seq<char>)>) -> Seq<ExitNodeChoiceView> {
    s.map_values(|e: (ExitNodeChoiceView, Seq<char>)| e.0)
}

/// Choices sorted with the lowercased host name as sort name.
pub open spec fn sorted_choices(peers: Seq<ExitNodeChoiceView>) -> Seq<ExitNodeChoiceView> {
    unkeyed(sort_peers(keyed(peers, peers.map_values(|p: ExitNodeChoiceView| lowercase(p.host_name)))))
}

/// The object members of an optional object value.
pub open spec fn members(v: Option<JsonValue>) -> Seq<(String, JsonValue)> {
    match v {
        Some(JsonValue::Object(m)) => m@,
        _ => Seq::empty(),
    }
}

/// The snapshot fields read directly from the status document, before the current exit node's
/// name is completed from the peers.
pub open spec fn snapshot_fields(raw: JsonValue) -> TailscaleSnapshotView {
    let root = Some(raw);
    let self_info = member_of(root, "Self"@);
    let current = member_of(root, "ExitNodeStatus"@);
    let current_ips = string_list(member_of(current, "TailscaleIPs"@));
    TailscaleSnapshotView {
        backend_state: match member_of(root, "BackendState"@) {
            Some(JsonValue::Str(s)) => s@,
            _ => "Unknown"@,
        },
        auth_url: text_of(member_of(root, "AuthURL"@)),
        self_host: text_of(member_of(self_info, "HostName"@)),
        self_dns: strip_trailing(text_of(member_of(self_info, "DNSName"@)), CharClass::Dot),
        self_ips: string_list(member_of(self_info, "TailscaleIPs"@)),
        current_exit_node_id: id_of(member_of(current, "ID"@)),
        current_exit_node_name: name_of(current),
        current_exit_node_ip: if current_ips.len() > 0 {
            current_ips[0]
        } else {
            Seq::empty()
        },
        peers: sorted_choices(exit_choices(members(member_of(root, "Peer"@)))),
    }
}

/// The first object member whose `ID` reads as `id`.
pub open spec fn node_with_id(entries: Seq<(String, JsonValue)>, id: Seq<char>) -> Option<JsonValue>
    decreases entries.len(),
{
    if entries.len() == 0 {
        None
    } else if entries[0].1 is Object && id_of(member(entries[0].1, "ID"@)) == id {
        Some(entries[0].1)
    } else {
        node_with_id(entries.drop_first(), id)
    }
}

/// Some address of `ips` is one of `wanted`.
pub open spec fn shares_address(wanted: Seq<Seq<char>>, ips: Seq<Seq<char>>) -> bool {
    exists|a: int, b: int|
        0 <= a < wanted.len() && 0 <= b < ips.len() && #[trigger] wanted[a] == #[trigger] ips[b]
}

/// The first object member that has one of the `wanted` addresses.
pub open spec fn node_with_address(
    entries: Seq<(String, JsonValue)>,
    wanted: Seq<Seq<char>>,
) -> Option<JsonValue>
    decreases entries.len(),
{
    if entries.len() == 0 {
        None
    } else if entries[0].1 is Object && shares_address(
        wanted,
        string_list(member(entries[0].1, "TailscaleIPs"@)),
    ) {
        Some(entries[0].1)
    } else {
        node_with_address(entries.drop_first(), wanted)
    }
}

/// The current exit node's name (and address, where it is still unknown) completed from the
/// peer that has its id, or, without an id and a name, from the peer that has one of its
/// addresses.
pub open spec fn enrich_spec(
    s: TailscaleSnapshotView,
    entries: Seq<(String, JsonValue)>,
    current_ips: Seq<Seq<char>>,
) -> TailscaleSnapshotView {
    if s.current_exit_node_id.len() > 0 {
        match node_with_id(entries, s.current_exit_node_id) {
            Some(node) => TailscaleSnapshotView {
                current_exit_node_name: name_of(Some(node)),
                current_exit_node_ip: if s.current_exit_node_ip.len() == 0 {
                    match first_text(member(node, "TailscaleIPs"@)) {
                        Some(t) => t,
                        None => s.current_exit_node_ip,
                    }
                } else {
                    s.current_exit_node_ip
                },
                ..s
            },
            None => s,
        }
    } else if s.current_exit_node_name.len() == 0 && current_ips.len() > 0 {
        match node_with_address(entries, current_ips) {
            Some(node) => {
                let ips = string_list(member(node, "TailscaleIPs"@));
                TailscaleSnapshotView {
                    current_exit_node_name: name_of(Some(node)),
                    current_exit_node_ip: if s.current_exit_node_ip.len() == 0 && ips.len() > 0 {
                        ips[0]
                    } else {
                        s.current_exit_node_ip
                    },
                    ..s
                }
            },
            None => s,
        }
    } else {
        s
    }
}

/// The snapshot that a status document describes.
pub open spec fn from_json_spec(raw: JsonValue) -> TailscaleSnapshotView {
    let root = Some(raw);
    let current = member_of(root, "ExitNodeStatus"@);
    enrich_spec(
        snapshot_fields(raw),
        members(member_of(root, "Peer"@)),
        string_list(member_of(current, "TailscaleIPs"@)),
    )
}


/// The choice for a node of the `Peer` map, when it offers itself as an exit node and has an
/// address.
fn exit_choice_from(node: &JsonValue) -> (r: Option<ExitNodeChoice>)
    ensures
        match r {
            Some(c) => exit_choice_of(*node) == Some(c.deep_view()),
            None => exit_choice_of(*node) is None,
        },
{
    let n = Some(node);
    if !flag_field(member_opt(n, "ExitNodeOption")) {
        return None;
    }
    let ips = string_list_field(member_opt(n, "TailscaleIPs"));
    if ips.len() == 0 {
        return None;
    }
    let dns = text_field(member_opt(n, "DNSName"));
    let c = ExitNodeChoice {
        node_id: id_field(member_opt(n, "ID")),
        host_name: text_field(member_opt(n, "HostName")),
        dns_name: String::from_str(trim_end_class(dns.as_str(), CharClass::Dot)),
        ip: ips[0].clone(),
        online: flag_field(member_opt(n, "Online")),
    };
    proof {
        assert(ips.deep_view()[0] == ips@[0]@);
    }
    Some(c)
}

/// The exit-node choices among the object members of the `Peer` map, in map order.
fn collect_exit_choices(entries: &Vec<(String, JsonValue)>) -> (r: Vec<ExitNodeChoice>)
    ensures
        r.deep_view() == exit_choices(entries@),
{
    let mut out: Vec<ExitNodeChoice> = Vec::new();
    let n = entries.len();
    let mut i: usize = 0;
    while i < n
        invariant
            n == entries@.len(),
            i <= n,
            out.deep_view() == exit_choices(entries@.take(i as int)),
        decreases n - i,
    {
        proof {
            let t = entries@.take(i + 1);
            assert(t.drop_last() =~= entries@.take(i as int));
            assert(t.last() == entries@[i as int]);
        }
        let node = &entries[i].1;
        match node {
            JsonValue::Object(_) => {
                match exit_choice_from(node) {
                    Some(c) => {
                        out.push(c);
                        proof {
                            assert(out.deep_view() =~= exit_choices(entries@.take(i as int)).push(
                                c.deep_view(),
                            ));
                        }
                    },
                    None => {},
                }
            },
            _ => {},
        }
        i = i + 1;
    }
    proof {
        assert(entries@.take(n as int) =~= entries@);
    }
    out
}

fn peer_before_exec(a: &ExitNodeChoice, a_name: &String, b: &ExitNodeChoice, b_name: &String) -> (r:
    bool)
    ensures
        r == peer_before((a.deep_view(), a_name@), (b.deep_view(), b_name@)),
{
    if a.online && !b.online {
        return true;
    }
    if a.online != b.online {
        return false;
    }
    if str_lt(a_name.as_str(), b_name.as_str()) {
        return true;
    }
    str_eq(a_name.as_str(), b_name.as_str()) && str_lt(a.ip.as_str(), b.ip.as_str())
}

proof fn lemma_insert_peer_at(
    s: Seq<(ExitNodeChoiceView, Seq<char>)>,
    e: (ExitNodeChoiceView, Seq<char>),
    j: int,
)
    requires
        0 <= j <= s.len(),
        forall|k: int| j <= k < s.len() ==> peer_before(e, #[trigger] s[k]),
        j == 0 || !peer_before(e, s[j - 1]),
    ensures
        insert_peer(s, e) == s.insert(j, e),
    decreases s.len(),
{
    if j == s.len() {
        assert(s.insert(j, e) =~= s.push(e));
    } else {
        assert(peer_before(e, s[s.len() - 1]));
        let d = s.drop_last();
        assert forall|k: int| j <= k < d.len() implies peer_before(e, #[trigger] d[k]) by {
            assert(d[k] == s[k]);
        }
        lemma_insert_peer_at(d, e, j);
        assert(d.insert(j, e).push(s.last()) =~= s.insert(j, e));
    }
}

/// Sorts the choices online first, then by sort name, then by address, keeping the order of
/// equal keys; `names` holds the sort name of each choice.
pub fn sort_exit_choices(peers: Vec<ExitNodeChoice>, names: Vec<String>) -> (r: Vec<ExitNodeChoice>)
    requires
        peers@.len() == names@.len(),
    ensures
        r.deep_view() == unkeyed(sort_peers(keyed(peers.deep_view(), names.deep_view()))),
{
    let ghost input = keyed(peers.deep_view(), names.deep_view());
    let mut out: Vec<ExitNodeChoice> = Vec::new();
    let mut out_names: Vec<String> = Vec::new();
    let n = peers.len();
    let mut i: usize = 0;
    while i < n
        invariant
            n == peers@.len(),
            n == names@.len(),
            input == keyed(peers.deep_view(), names.deep_view()),
            i <= n,
            out@.len() == out_names@.len(),
            keyed(out.deep_view(), out_names.deep_view()) == sort_peers(input.take(i as int)),
        decreases n - i,
    {
        let p = peers[i].clone();
        let pn = names[i].clone();
        let ghost e = (p.deep_view(), pn@);
        let ghost before = keyed(out.deep_view(), out_names.deep_view());
        let mut j = out.len();
        while j > 0 && peer_before_exec(&p, &pn, &out[j - 1], &out_names[j - 1])
            invariant
                out@.len() == out_names@.len(),
                before == keyed(out.deep_view(), out_names.deep_view()),
                e == (p.deep_view(), pn@),
                j <= out@.len(),
                forall|k: int| j <= k < before.len() ==> peer_before(e, #[trigger] before[k]),
            decreases j,
        {
            j = j - 1;
        }
        proof {
            lemma_insert_peer_at(before, e, j as int);
            let t = input.take(i + 1);
            assert(t.drop_last() =~= input.take(i as int));
            assert(t.last() == e);
        }
        out.insert(j, p);
        out_names.insert(j, pn);
        proof {
            assert(keyed(out.deep_view(), out_names.deep_view()) =~= before.insert(j as int, e));
        }
        i = i + 1;
    }
    proof {
        assert(input.take(n as int) =~= input);
        assert(out.deep_view() =~= unkeyed(keyed(out.deep_view(), out_names.deep_view())));
    }
    out
}

/// The object member whose `ID` reads as `id`.
fn find_node_with_id<'a>(entries: &'a Vec<(String, JsonValue)>, id: &String) -> (r: Option<
    &'a JsonValue,
>)
    ensures
        val(r) == node_with_id(entries@, id@),
{
    let n = entries.len();
    let mut i: usize = 0;
    proof {
        assert(entries@.skip(0) =~= entries@);
    }
    while i < n
        invariant
            n == entries@.len(),
            i <= n,
            node_with_id(entries@, id@) == node_with_id(entries@.skip(i as int), id@),
        decreases n - i,
    {
        proof {
            assert(entries@.skip(i as int).drop_first() =~= entries@.skip(i + 1));
            assert(entries@.skip(i as int)[0] == entries@[i as int]);
        }
        let node = &entries[i].1;
        match node {
            JsonValue::Object(_) => {
                let node_id = id_field(node.get("ID"));
                if str_eq(node_id.as_str(), id.as_str()) {
                    return Some(node);
                }
            },
            _ => {},
        }
        i = i + 1;
    }
    None
}

/// The object member that has one of the `wanted` addresses.
fn find_node_with_address<'a>(entries: &'a Vec<(String, JsonValue)>, wanted: &Vec<String>) -> (r:
    Option<&'a JsonValue>)
    ensures
        val(r) == node_with_address(entries@, wanted.deep_view()),
{
    let n = entries.len();
    let mut i: usize = 0;
    proof {
        assert(entries@.skip(0) =~= entries@);
    }
    while i < n
        invariant
            n == entries@.len(),
            i <= n,
            node_with_address(entries@, wanted.deep_view()) == node_with_address(
                entries@.skip(i as int),
                wanted.deep_view(),
            ),
        decreases n - i,
    {
        proof {
            assert(entries@.skip(i as int).drop_first() =~= entries@.skip(i + 1));
            assert(entries@.skip(i as int)[0] == entries@[i as int]);
        }
        let node = &entries[i].1;
        match node {
            JsonValue::Object(_) => {
                let ips = string_list_field(node.get("TailscaleIPs"));
                if addresses_overlap(wanted, &ips) {
                    return Some(node);
                }
            },
            _ => {},
        }
        i = i + 1;
    }
    None
}

/// Whether some address of `ips` is one of `wanted`.
fn addresses_overlap(wanted: &Vec<String>, ips: &Vec<String>) -> (r: bool)
    ensures
        r == shares_address(wanted.deep_view(), ips.deep_view()),
{
    let n = wanted.len();
    let m = ips.len();
    let mut i: usize = 0;
    while i < n
        invariant
            n == wanted@.len(),
            m == ips@.len(),
            i <= n,
            forall|a: int, b: int| 0 <= a < i && 0 <= b < m ==> wanted@[a]@ != ips@[b]@,
        decreases n - i,
    {
        let mut j: usize = 0;
        while j < m
            invariant
                n == wanted@.len(),
                m == ips@.len(),
                i < n,
                j <= m,
                forall|b: int| 0 <= b < j ==> wanted@[i as int]@ != ips@[b]@,
            decreases m - j,
        {
            if str_eq(wanted[i].as_str(), ips[j].as_str()) {
                proof {
                    assert(wanted.deep_view()[i as int] == ips.deep_view()[j as int]);
                }
                return true;
            }
            j = j + 1;
        }
        i = i + 1;
    }
    proof {
        if shares_address(wanted.deep_view(), ips.deep_view()) {
            let (a, b) = choose|a: int, b: int|
                0 <= a < wanted.deep_view().len() && 0 <= b < ips.deep_view().len()
                    && #[trigger] wanted.deep_view()[a] == #[trigger] ips.deep_view()[b];
            assert(wanted@[a]@ == ips@[b]@);
        }
    }
    false
}

impl TailscaleSnapshot {
    /// The daemon is up and connected (`BackendState` is `Running`).
    pub fn connected(&self) -> (r: bool)
        ensures
            r == is_connected(self.deep_view()),
    {
        str_eq(self.backend_state.as_str(), "Running")
    }

    /// The daemon waits for an interactive login: there is a login URL and it is not running.
    pub fn login_required(&self) -> (r: bool)
        ensures
            r == is_login_required(self.deep_view()),
    {
        !self.auth_url.as_str().is_empty() && !str_eq(self.backend_state.as_str(), "Running")
    }

    /// Trims white space, drops trailing dots and lowercases.
    pub fn normalize(value: &str) -> (r: String)
        ensures
            r@ == normalize_spec(value@),
    {
        let t = trim(value);
        let t = trim_end_class(t, CharClass::Dot);
        to_lowercase(t)
    }

    /// The first peer that the saved settings name by id, host name, DNS name or address.
    pub fn find_preferred_peer(&self, config: &AppConfig) -> (r: Option<ExitNodeChoice>)
        ensures
            match r {
                Some(p) => preferred_peer(self.deep_view(), config.deep_view()) == Some(
                    p.deep_view(),
                ),
                None => preferred_peer(self.deep_view(), config.deep_view()) is None,
            },
    {
        let ghost ids_spec = self.deep_view().peers.map_values(|p| peer_identifiers(p));
        if self.peers.len() == 0 {
            proof {
                assert(ids_spec.len() == 0);
            }
            return None;
        }
        let mut candidates: Vec<String> = Vec::new();
        candidates.push(normalized(&config.preferred_exit_node_id));
        candidates.push(normalized(&config.preferred_exit_node_name));
        candidates.push(normalized(&config.preferred_exit_node_dns));
        candidates.push(normalized(&config.preferred_exit_node_ip));
        proof {
            assert(candidates.deep_view() =~= config_candidates(config.deep_view()));
        }
        let mut peer_ids: Vec<Vec<String>> = Vec::new();
        let n = self.peers.len();
        let mut i: usize = 0;
        while i < n
            invariant
                n == self.peers@.len(),
                i <= n,
                ids_spec == self.deep_view().peers.map_values(|p| peer_identifiers(p)),
                peer_ids@.len() == i,
                forall|k: int| 0 <= k < i ==> #[trigger] peer_ids@[k].deep_view() == ids_spec[k],
            decreases n - i,
        {
            let p = &self.peers[i];
            let mut ids: Vec<String> = Vec::new();
            ids.push(normalized(&p.node_id));
            ids.push(normalized(&p.host_name));
            ids.push(normalized(&p.dns_name));
            ids.push(normalized(&p.ip));
            proof {
                assert(self.deep_view().peers[i as int] == p.deep_view());
                assert(ids.deep_view() =~= peer_identifiers(p.deep_view()));
            }
            peer_ids.push(ids);
            i = i + 1;
        }
        proof {
            assert(peer_ids.deep_view() =~= ids_spec);
        }
        match pick_preferred(&candidates, &peer_ids) {
            Some(k) => {
                proof {
                    assert(self.deep_view().peers[k as int] == self.peers@[k as int].deep_view());
                }
                Some(self.peers[k].clone())
            },
            None => None,
        }
    }
}


impl TailscaleSnapshot {
    /// Reads the snapshot from the document that `tailscale status --json` prints.
    pub fn from_json(raw: &JsonValue) -> (r: Result<Self, String>)
        ensures
            r matches Ok(s) && s.deep_view() == from_json_spec(*raw),
            r matches Ok(s) && forall|i: int, j: int|
                0 <= i < j < s.peers@.len() ==> (#[trigger] s.peers@[i]).online || !(
                #[trigger] s.peers@[j]).online,
    {
        proof {
            lemma_online_peers_listed_first(*raw);
        }
        let root = Some(raw);
        let self_info = member_opt(root, "Self");
        let current = member_opt(root, "ExitNodeStatus");
        let empty: Vec<(String, JsonValue)> = Vec::new();
        let peer_map: &Vec<(String, JsonValue)> = match member_opt(root, "Peer") {
            Some(JsonValue::Object(m)) => m,
            _ => &empty,
        };
        proof {
            assert(peer_map@ == members(member_of(Some(*raw), "Peer"@)));
        }
        let current_exit_ips = string_list_field(member_opt(current, "TailscaleIPs"));
        let choices = collect_exit_choices(peer_map);
        let mut names: Vec<String> = Vec::new();
        let n = choices.len();
        let mut i: usize = 0;
        while i < n
            invariant
                n == choices@.len(),
                i <= n,
                names@.len() == i,
                forall|k: int|
                    0 <= k < i ==> #[trigger] names@[k]@ == lowercase(choices@[k].host_name@),
            decreases n - i,
        {
            names.push(to_lowercase(choices[i].host_name.as_str()));
            i = i + 1;
        }
        let ghost choices_view = choices.deep_view();
        proof {
            assert(names.deep_view() =~= choices_view.map_values(
                |p: ExitNodeChoiceView| lowercase(p.host_name),
            ));
        }
        let peers = sort_exit_choices(choices, names);
        let backend_state = match member_opt(root, "BackendState") {
            Some(JsonValue::Str(s)) => s.clone(),
            _ => String::from_str("Unknown"),
        };
        let self_dns = text_field(member_opt(self_info, "DNSName"));
        let current_exit_node_ip = if current_exit_ips.len() > 0 {
            current_exit_ips[0].clone()
        } else {
            String::new()
        };
        proof {
            if current_exit_ips@.len() > 0 {
                assert(current_exit_ips.deep_view()[0] == current_exit_ips@[0]@);
            }
        }
        let snapshot = TailscaleSnapshot {
            backend_state,
            auth_url: text_field(member_opt(root, "AuthURL")),
            self_host: text_field(member_opt(self_info, "HostName")),
            self_dns: String::from_str(trim_end_class(self_dns.as_str(), CharClass::Dot)),
            self_ips: string_list_field(member_opt(self_info, "TailscaleIPs")),
            current_exit_node_id: id_field(member_opt(current, "ID")),
            current_exit_node_name: name_field(current),
            current_exit_node_ip,
            peers,
        };
        proof {
            assert(snapshot.deep_view() == snapshot_fields(*raw));
        }
        let r = snapshot.enrich_current_exit_name(peer_map, &current_exit_ips);
        proof {
            if r is Ok {
                let s = r->Ok_0;
                let v = from_json_spec(*raw).peers;
                assert(s.peers.deep_view() == v);
                assert forall|i: int, j: int| 0 <= i < j < s.peers@.len() implies (
                #[trigger] s.peers@[i]).online || !(#[trigger] s.peers@[j]).online by {
                    assert(v[i] == s.peers@[i].deep_view());
                    assert(v[j] == s.peers@[j].deep_view());
                }
            }
        }
        r
    }

    /// The snapshot from the parsed output of `tailscale status --json`: the document's snapshot
    /// when it parsed, else the parse error prefixed with what failed.
    pub fn from_status_output(parsed: Result<JsonValue, String>) -> (r: Result<Self, String>)
        ensures
            match parsed {
                Ok(v) => r matches Ok(s) && s.deep_view() == from_json_spec(v),
                Err(e) => r matches Err(m) && m@ == "failed to parse tailscale status json: "@ + e@,
            },
    {
        match parsed {
            Ok(v) => Self::from_json(&v),
            Err(e) => Err(String::from_str("failed to parse tailscale status json: ").concat(
                e.as_str(),
            )),
        }
    }

    /// Completes the current exit node's name (and address, where it is still unknown) from the
    /// peer that has its id, or, when there is neither id nor name, from the peer that has one
    /// of its addresses.
    pub fn enrich_current_exit_name(
        self,
        peer_map: &Vec<(String, JsonValue)>,
        current_exit_ips: &Vec<String>,
    ) -> (r: Result<Self, String>)
        ensures
            r matches Ok(s) && s.deep_view() == enrich_spec(
                self.deep_view(),
                peer_map@,
                current_exit_ips.deep_view(),
            ),
    {
        let mut s = self;
        if !s.current_exit_node_id.as_str().is_empty() {
            match find_node_with_id(peer_map, &s.current_exit_node_id) {
                Some(node) => {
                    s.current_exit_node_name = name_field(Some(node));
                    if s.current_exit_node_ip.as_str().is_empty() {
                        match first_text_field(node.get("TailscaleIPs")) {
                            Some(ip) => {
                                s.current_exit_node_ip = ip;
                            },
                            None => {},
                        }
                    }
                },
                None => {},
            }
        } else if s.current_exit_node_name.as_str().is_empty() && current_exit_ips.len() > 0 {
            match find_node_with_address(peer_map, current_exit_ips) {
                Some(node) => {
                    let ips = string_list_field(node.get("TailscaleIPs"));
                    s.current_exit_node_name = name_field(Some(node));
                    if s.current_exit_node_ip.as_str().is_empty() && ips.len() > 0 {
                        s.current_exit_node_ip = ips[0].clone();
                        proof {
                            assert(ips.deep_view()[0] == ips@[0]@);
                        }
                    }
                },
                None => {},
            }
        }
        Ok(s)
    }
}


/// A matching identifier list makes the first match exist, at or before it.
proof fn lemma_first_match_exists(c: Seq<Seq<char>>, ids: Seq<Seq<Seq<char>>>, i: int)
    requires
        0 <= i < ids.len(),
        identifiers_match(c, ids[i]),
    ensures
        first_match(c, ids) matches Some(k) && 0 <= k <= i && identifiers_match(c, ids[k]),
    decreases ids.len(),
{
    if i < ids.len() - 1 {
        assert(ids.drop_last()[i] == ids[i]);
        lemma_first_match_exists(c, ids.drop_last(), i);
        let k = first_match(c, ids.drop_last())->0;
        assert(ids.drop_last()[k] == ids[k]);
    } else {
        match first_match(c, ids.drop_last()) {
            Some(k) => {
                lemma_first_match_bounds(c, ids.drop_last());
                assert(ids.drop_last()[k] == ids[k]);
            },
            None => {},
        }
    }
}

/// The first match is an index of the list whose identifiers match.
proof fn lemma_first_match_bounds(c: Seq<Seq<char>>, ids: Seq<Seq<Seq<char>>>)
    ensures
        first_match(c, ids) matches Some(k) ==> 0 <= k < ids.len() && identifiers_match(c, ids[k]),
    decreases ids.len(),
{
    if ids.len() > 0 {
        lemma_first_match_bounds(c, ids.drop_last());
        match first_match(c, ids.drop_last()) {
            Some(k) => {
                assert(ids.drop_last()[k] == ids[k]);
            },
            None => {},
        }
    }
}

/// The peer found for the saved settings is one of the snapshot's peers.
pub proof fn lemma_preferred_peer_is_listed(s: TailscaleSnapshotView, c: crate::config::AppConfigView)
    ensures
        preferred_peer(s, c) matches Some(p) ==> s.peers.contains(p) && identifiers_match(
            config_candidates(c),
            peer_identifiers(p),
        ),
{
    let ids = s.peers.map_values(|p| peer_identifiers(p));
    lemma_first_match_bounds(config_candidates(c), ids);
    match first_match(config_candidates(c), ids) {
        Some(k) => {
            assert(s.peers[k] == s.peers[k]);
            assert(ids[k] == peer_identifiers(s.peers[k]));
        },
        None => {},
    }
}

/// Saving a listed peer as the preferred exit node makes the lookup find a peer again: one
/// listed at or before it that shares a non-empty normalized identifier with it (the saved
/// peer itself when no earlier peer does).
pub proof fn lemma_saved_peer_is_found(
    s: TailscaleSnapshotView,
    c: crate::config::AppConfigView,
    i: int,
)
    requires
        0 <= i < s.peers.len(),
        c.preferred_exit_node_id == s.peers[i].node_id,
        c.preferred_exit_node_name == s.peers[i].host_name,
        c.preferred_exit_node_dns == s.peers[i].dns_name,
        c.preferred_exit_node_ip == s.peers[i].ip,
        exists|j: int| 0 <= j < 4 && (#[trigger] peer_identifiers(s.peers[i])[j]).len() > 0,
    ensures
        preferred_peer(s, c) matches Some(p) && (exists|k: int| 0 <= k <= i && s.peers[k] == p)
            && identifiers_match(peer_identifiers(s.peers[i]), peer_identifiers(p)),
{
    let ids = s.peers.map_values(|p| peer_identifiers(p));
    let cands = config_candidates(c);
    assert(cands =~= peer_identifiers(s.peers[i]));
    let j = choose|j: int| 0 <= j < 4 && (#[trigger] peer_identifiers(s.peers[i])[j]).len() > 0;
    assert(ids[i] == peer_identifiers(s.peers[i]));
    assert(cands[j] == ids[i][j]);
    assert(identifiers_match(cands, ids[i]));
    lemma_first_match_exists(cands, ids, i);
    let k = first_match(cands, ids)->0;
    assert(ids[k] == peer_identifiers(s.peers[k]));
}


/// `peer_before` is a strict weak order: irreflexive, asymmetric, and "not before" is
/// transitive.
proof fn lemma_peer_before_order(
    a: (ExitNodeChoiceView, Seq<char>),
    b: (ExitNodeChoiceView, Seq<char>),
    c: (ExitNodeChoiceView, Seq<char>),
)
    ensures
        !peer_before(a, a),
        peer_before(a, b) ==> !peer_before(b, a),
        !peer_before(a, b) && !peer_before(b, c) ==> !peer_before(a, c),
{
    lemma_chars_lt_irreflexive(a.1);
    lemma_chars_lt_irreflexive(a.0.ip);
    if chars_lt(a.1, b.1) && chars_lt(b.1, a.1) {
        lemma_chars_lt_transitive(a.1, b.1, a.1);
    }
    if chars_lt(a.0.ip, b.0.ip) && chars_lt(b.0.ip, a.0.ip) {
        lemma_chars_lt_transitive(a.0.ip, b.0.ip, a.0.ip);
    }
    if a.1 != b.1 {
        lemma_chars_lt_total(a.1, b.1);
    }
    if b.1 != c.1 {
        lemma_chars_lt_total(b.1, c.1);
    }
    if a.1 != c.1 {
        lemma_chars_lt_total(a.1, c.1);
    }
    if a.0.ip != b.0.ip {
        lemma_chars_lt_total(a.0.ip, b.0.ip);
    }
    if b.0.ip != c.0.ip {
        lemma_chars_lt_total(b.0.ip, c.0.ip);
    }
    if a.0.ip != c.0.ip {
        lemma_chars_lt_total(a.0.ip, c.0.ip);
    }
    if chars_lt(c.1, b.1) && chars_lt(b.1, a.1) {
        lemma_chars_lt_transitive(c.1, b.1, a.1);
    }
    if chars_lt(c.0.ip, b.0.ip) && chars_lt(b.0.ip, a.0.ip) {
        lemma_chars_lt_transitive(c.0.ip, b.0.ip, a.0.ip);
    }
    if chars_lt(a.1, c.1) && chars_lt(c.1, a.1) {
        lemma_chars_lt_transitive(a.1, c.1, a.1);
    }
    if chars_lt(a.0.ip, c.0.ip) && chars_lt(c.0.ip, a.0.ip) {
        lemma_chars_lt_transitive(a.0.ip, c.0.ip, a.0.ip);
    }
    lemma_chars_lt_irreflexive(c.1);
    lemma_chars_lt_irreflexive(c.0.ip);
    lemma_chars_lt_irreflexive(b.1);
    lemma_chars_lt_irreflexive(b.0.ip);
}

/// No element of the list sorts before an earlier one.
pub open spec fn peers_in_order(s: Seq<(ExitNodeChoiceView, Seq<char>)>) -> bool {
    forall|i: int, j: int| 0 <= i < j < s.len() ==> !peer_before(#[trigger] s[j], #[trigger] s[i])
}

/// Inserting keeps the elements of the list and adds the new one.
proof fn lemma_insert_peer_members(
    s: Seq<(ExitNodeChoiceView, Seq<char>)>,
    e: (ExitNodeChoiceView, Seq<char>),
)
    ensures
        insert_peer(s, e).len() == s.len() + 1,
        forall|k: int|
            0 <= k < insert_peer(s, e).len() ==> #[trigger] insert_peer(s, e)[k] == e || s.contains(
                insert_peer(s, e)[k],
            ),
        forall|k: int| 0 <= k < s.len() ==> insert_peer(s, e).contains(#[trigger] s[k]),
    decreases s.len(),
{
    if s.len() > 0 && peer_before(e, s.last()) {
        let d = s.drop_last();
        lemma_insert_peer_members(d, e);
        let r = insert_peer(s, e);
        assert(r == insert_peer(d, e).push(s.last()));
        assert forall|k: int| 0 <= k < r.len() implies #[trigger] r[k] == e || s.contains(r[k]) by {
            if k < r.len() - 1 {
                if r[k] != e {
                    let m = choose|m: int| 0 <= m < d.len() && d[m] == r[k];
                    assert(s[m] == d[m]);
                }
            } else {
                assert(s[s.len() - 1] == r[k]);
            }
        }
        assert forall|k: int| 0 <= k < s.len() implies r.contains(#[trigger] s[k]) by {
            if k < s.len() - 1 {
                assert(d[k] == s[k]);
                assert(insert_peer(d, e).contains(d[k]));
                let m = choose|m: int| 0 <= m < insert_peer(d, e).len() && insert_peer(d, e)[m]
                    == d[k];
                assert(r[m] == s[k]);
            } else {
                assert(r[r.len() - 1] == s[k]);
            }
        }
    } else if s.len() > 0 {
        let r = s.push(e);
        assert forall|k: int| 0 <= k < r.len() implies #[trigger] r[k] == e || s.contains(r[k]) by {
            if k < s.len() {
                assert(s[k] == r[k]);
            }
        }
        assert forall|k: int| 0 <= k < s.len() implies r.contains(#[trigger] s[k]) by {
            assert(r[k] == s[k]);
        }
    } else {
        assert(insert_peer(s, e) =~= seq![e]);
    }
}

/// Inserting into an ordered list keeps it ordered.
proof fn lemma_insert_peer_in_order(
    s: Seq<(ExitNodeChoiceView, Seq<char>)>,
    e: (ExitNodeChoiceView, Seq<char>),
)
    requires
        peers_in_order(s),
    ensures
        peers_in_order(insert_peer(s, e)),
    decreases s.len(),
{
    if s.len() == 0 {
        assert(insert_peer(s, e) =~= seq![e]);
    } else if peer_before(e, s.last()) {
        let d = s.drop_last();
        let last = s.last();
        assert(peers_in_order(d)) by {
            assert forall|i: int, j: int| 0 <= i < j < d.len() implies !peer_before(
                #[trigger] d[j],
                #[trigger] d[i],
            ) by {
                assert(d[i] == s[i] && d[j] == s[j]);
            }
        }
        lemma_insert_peer_in_order(d, e);
        lemma_insert_peer_members(d, e);
        let t = insert_peer(d, e);
        let r = t.push(last);
        assert forall|i: int, j: int| 0 <= i < j < r.len() implies !peer_before(
            #[trigger] r[j],
            #[trigger] r[i],
        ) by {
            if j < r.len() - 1 {
                assert(r[i] == t[i] && r[j] == t[j]);
            } else {
                assert(r[j] == last);
                assert(r[i] == t[i]);
                if t[i] == e {
                    lemma_peer_before_order(e, last, e);
                } else {
                    let m = choose|m: int| 0 <= m < d.len() && d[m] == t[i];
                    assert(s[m] == d[m]);
                    assert(!peer_before(s[s.len() - 1], s[m]));
                }
            }
        }
    } else {
        let last = s.last();
        let r = s.push(e);
        assert forall|i: int, j: int| 0 <= i < j < r.len() implies !peer_before(
            #[trigger] r[j],
            #[trigger] r[i],
        ) by {
            if j < s.len() {
                assert(r[i] == s[i] && r[j] == s[j]);
            } else {
                assert(r[j] == e);
                assert(r[i] == s[i]);
                if i < s.len() - 1 {
                    assert(!peer_before(s[s.len() - 1], s[i]));
                    lemma_peer_before_order(e, last, s[i]);
                }
            }
        }
    }
}

/// The stable sort orders the list and keeps its elements.
proof fn lemma_sort_peers_in_order(s: Seq<(ExitNodeChoiceView, Seq<char>)>)
    ensures
        peers_in_order(sort_peers(s)),
        sort_peers(s).len() == s.len(),
        forall|k: int| 0 <= k < sort_peers(s).len() ==> s.contains(#[trigger] sort_peers(s)[k]),
    decreases s.len(),
{
    if s.len() > 0 {
        let d = s.drop_last();
        lemma_sort_peers_in_order(d);
        lemma_insert_peer_in_order(sort_peers(d), s.last());
        lemma_insert_peer_members(sort_peers(d), s.last());
        let r = sort_peers(s);
        assert forall|k: int| 0 <= k < r.len() implies s.contains(#[trigger] r[k]) by {
            if r[k] == s.last() {
                assert(s[s.len() - 1] == r[k]);
            } else {
                let m = choose|m: int| 0 <= m < sort_peers(d).len() && sort_peers(d)[m] == r[k];
                let m2 = choose|m2: int| 0 <= m2 < d.len() && d[m2] == sort_peers(d)[m];
                assert(s[m2] == d[m2]);
            }
        }
    }
}

/// The peers of a snapshot are listed online first, then by lowercased host name, then by
/// address.
pub proof fn lemma_peers_listed_in_order(raw: JsonValue)
    ensures
        forall|i: int, j: int|
            0 <= i < j < from_json_spec(raw).peers.len() ==> !peer_before(
                (
                    #[trigger] from_json_spec(raw).peers[j],
                    lowercase(from_json_spec(raw).peers[j].host_name),
                ),
                (
                    #[trigger] from_json_spec(raw).peers[i],
                    lowercase(from_json_spec(raw).peers[i].host_name),
                ),
            ),
{
    let choices = exit_choices(members(member_of(Some(raw), "Peer"@)));
    let k = keyed(choices, choices.map_values(|p: ExitNodeChoiceView| lowercase(p.host_name)));
    lemma_sort_peers_in_order(k);
    let sorted = sort_peers(k);
    let peers = from_json_spec(raw).peers;
    assert(peers == unkeyed(sorted));
    assert forall|m: int| 0 <= m < sorted.len() implies #[trigger] sorted[m].1 == lowercase(
        sorted[m].0.host_name,
    ) by {
        assert(k.contains(sorted[m]));
        let w = choose|w: int| 0 <= w < k.len() && k[w] == sorted[m];
    }
    assert forall|i: int, j: int| 0 <= i < j < peers.len() implies !peer_before(
        (#[trigger] peers[j], lowercase(peers[j].host_name)),
        (#[trigger] peers[i], lowercase(peers[i].host_name)),
    ) by {
        assert(sorted[i].1 == lowercase(sorted[i].0.host_name));
        assert(sorted[j].1 == lowercase(sorted[j].0.host_name));
        assert(peers[i] == sorted[i].0);
        assert(peers[j] == sorted[j].0);
        assert(sorted[i] == (peers[i], lowercase(peers[i].host_name)));
        assert(sorted[j] == (peers[j], lowercase(peers[j].host_name)));
    }
}

/// No offline peer is listed before an online one, and among peers that are both online or
/// both offline the lowercased host names never decrease.
pub proof fn lemma_online_peers_listed_first(raw: JsonValue)
    ensures
        forall|i: int, j: int|
            0 <= i < j < from_json_spec(raw).peers.len() ==> (#[trigger] from_json_spec(
                raw,
            ).peers[i]).online || !(#[trigger] from_json_spec(raw).peers[j]).online,
        forall|i: int, j: int|
            0 <= i < j < from_json_spec(raw).peers.len() && (#[trigger] from_json_spec(
                raw,
            ).peers[i]).online == (#[trigger] from_json_spec(raw).peers[j]).online ==> !chars_lt(
                lowercase(from_json_spec(raw).peers[j].host_name),
                lowercase(from_json_spec(raw).peers[i].host_name),
            ),
{
    lemma_peers_listed_in_order(raw);
    let peers = from_json_spec(raw).peers;
    assert forall|i: int, j: int| 0 <= i < j < peers.len() implies (#[trigger] peers[i]).online
        || !(#[trigger] peers[j]).online by {
        assert(!peer_before(
            (peers[j], lowercase(peers[j].host_name)),
            (peers[i], lowercase(peers[i].host_name)),
        ));
    }
    assert forall|i: int, j: int|
        0 <= i < j < peers.len() && (#[trigger] peers[i]).online == (#[trigger] peers[j]).online implies !chars_lt(
        lowercase(peers[j].host_name),
        lowercase(peers[i].host_name),
    ) by {
        assert(!peer_before(
            (peers[j], lowercase(peers[j].host_name)),
            (peers[i], lowercase(peers[i].host_name)),
        ));
    }
}

} // verus!

