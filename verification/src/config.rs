//! Saved settings and the locations of the settings, cache and autostart files.

use vstd::prelude::*;
use crate::text::{push_char, strip_leading, trim_start_class, CharClass};

verus! {

/// The settings the tray remembers between runs.
#[derive(Debug)]
pub struct AppConfig {
    pub preferred_exit_node_id: String,
    pub preferred_exit_node_name: String,
    pub preferred_exit_node_ip: String,
    pub preferred_exit_node_dns: String,
    pub use_exit_node: bool,
    pub exit_node_allow_lan_access: bool,
    pub autostart_enabled: bool,
}

pub struct AppConfigView {
    pub preferred_exit_node_id: Seq<char>,
    pub preferred_exit_node_name: Seq<char>,
    pub preferred_exit_node_ip: Seq<char>,
    pub preferred_exit_node_dns: Seq<char>,
    pub use_exit_node: bool,
    pub exit_node_allow_lan_access: bool,
    pub autostart_enabled: bool,
}

impl DeepView for AppConfig {
    type V = AppConfigView;

    open spec fn deep_view(&self) -> AppConfigView {
        AppConfigView {
            preferred_exit_node_id: self.preferred_exit_node_id@,
            preferred_exit_node_name: self.preferred_exit_node_name@,
            preferred_exit_node_ip: self.preferred_exit_node_ip@,
            preferred_exit_node_dns: self.preferred_exit_node_dns@,
            use_exit_node: self.use_exit_node,
            exit_node_allow_lan_access: self.exit_node_allow_lan_access,
            autostart_enabled: self.autostart_enabled,
        }
    }
}

/// Settings of a first run: no saved exit node, exit node use and autostart on, LAN access off.
pub open spec fn default_config() -> AppConfigView {
    AppConfigView {
        preferred_exit_node_id: Seq::empty(),
        preferred_exit_node_name: Seq::empty(),
        preferred_exit_node_ip: Seq::empty(),
        preferred_exit_node_dns: Seq::empty(),
        use_exit_node: true,
        exit_node_allow_lan_access: false,
        autostart_enabled: true,
    }
}

impl Default for AppConfig {
    fn default() -> (r: Self)
        ensures
            r.deep_view() == default_config(),
    {
        AppConfig {
            preferred_exit_node_id: String::new(),
            preferred_exit_node_name: String::new(),
            preferred_exit_node_ip: String::new(),
            preferred_exit_node_dns: String::new(),
            use_exit_node: true,
            exit_node_allow_lan_access: false,
            autostart_enabled: true,
        }
    }
}

impl Clone for AppConfig {
    fn clone(&self) -> (r: Self)
        ensures
            r == *self,
    {
        AppConfig {
            preferred_exit_node_id: self.preferred_exit_node_id.clone(),
            preferred_exit_node_name: self.preferred_exit_node_name.clone(),
            preferred_exit_node_ip: self.preferred_exit_node_ip.clone(),
            preferred_exit_node_dns: self.preferred_exit_node_dns.clone(),
            use_exit_node: self.use_exit_node,
            exit_node_allow_lan_access: self.exit_node_allow_lan_access,
            autostart_enabled: self.autostart_enabled,
        }
    }
}

/// The environment variables that the file locations depend on.
#[derive(Debug)]
pub struct Environment {
    pub home: Option<String>,
    pub xdg_config_home: Option<String>,
    pub xdg_cache_home: Option<String>,
}

/// Name of the application's own directories.
pub open spec fn app_name() -> Seq<char> {
    "tailscale-ui"@
}

/// `PathBuf::join` on Unix: an absolute `p` replaces `base`; otherwise `p` is appended, with a
/// `/` in between unless `base` is empty or already ends with one.
pub open spec fn path_join_spec(base: Seq<char>, p: Seq<char>) -> Seq<char> {
    if p.len() > 0 && p[0] == '/' {
        p
    } else if base.len() > 0 && base.last() != '/' {
        base.push('/') + p
    } else {
        base + p
    }
}

/// A leading `~` replaced by the home directory, when that is known.
pub open spec fn expanduser_spec(path: Seq<char>, home: Option<Seq<char>>) -> Seq<char> {
    if path.len() > 0 && path[0] == '~' && home is Some {
        path_join_spec(home->0, strip_leading(path.drop_first(), CharClass::Slash))
    } else {
        path
    }
}

/// A directory taken from an environment variable (with `~` expanded), else `fallback`.
pub open spec fn xdg_dir_spec(
    value: Option<Seq<char>>,
    home: Option<Seq<char>>,
    fallback: Seq<char>,
) -> Seq<char> {
    match value {
        Some(v) => expanduser_spec(v, home),
        None => fallback,
    }
}

/// The home directory, else the current directory.
pub open spec fn home_dir_spec(home: Option<Seq<char>>) -> Seq<char> {
    match home {
        Some(h) => h,
        None => "."@,
    }
}

pub open spec fn opt_view(v: Option<String>) -> Option<Seq<char>> {
    match v {
        Some(s) => Some(s@),
        None => None,
    }
}

pub open spec fn config_home_spec(env: Environment) -> Seq<char> {
    xdg_dir_spec(
        opt_view(env.xdg_config_home),
        opt_view(env.home),
        path_join_spec(home_dir_spec(opt_view(env.home)), ".config"@),
    )
}

pub open spec fn cache_home_spec(env: Environment) -> Seq<char> {
    xdg_dir_spec(
        opt_view(env.xdg_cache_home),
        opt_view(env.home),
        path_join_spec(home_dir_spec(opt_view(env.home)), ".cache"@),
    )
}

pub open spec fn config_dir_spec(env: Environment) -> Seq<char> {
    path_join_spec(config_home_spec(env), app_name())
}

pub open spec fn cache_dir_spec(env: Environment) -> Seq<char> {
    path_join_spec(cache_home_spec(env), app_name())
}

pub open spec fn autostart_dir_spec(env: Environment) -> Seq<char> {
    path_join_spec(config_home_spec(env), "autostart"@)
}

pub open spec fn autostart_file_spec(env: Environment) -> Seq<char> {
    path_join_spec(autostart_dir_spec(env), "tailscale-ui.desktop"@)
}

pub open spec fn config_file_spec(env: Environment) -> Seq<char> {
    path_join_spec(config_dir_spec(env), "config.json"@)
}

pub open spec fn local_web_pid_file_spec(env: Environment) -> Seq<char> {
    path_join_spec(cache_dir_spec(env), "local-web-interface.pid"@)
}

/// Joins a path component onto a path the way `PathBuf::join` does on Unix.
pub fn path_join(base: &str, p: &str) -> (r: String)
    ensures
        r@ == path_join_spec(base@, p@),
{
    let pn = p.unicode_len();
    let bn = base.unicode_len();
    if pn > 0 && p.get_char(0) == '/' {
        String::from_str(p)
    } else if bn > 0 && base.get_char(bn - 1) != '/' {
        let mut s = String::from_str(base);
        push_char(&mut s, '/');
        s.append(p);
        s
    } else {
        let mut s = String::from_str(base);
        s.append(p);
        s
    }
}

/// Replaces a leading `~` of `path` by the home directory, when that is known.
pub fn expanduser(path: &str, home: Option<&str>) -> (r: String)
    ensures
        r@ == expanduser_spec(
            path@,
            match home {
                Some(h) => Some(h@),
                None => None,
            },
        ),
{
    let n = path.unicode_len();
    if n > 0 && path.get_char(0) == '~' {
        match home {
            Some(h) => {
                let rest = path.substring_char(1, n);
                proof {
                    assert(rest@ =~= path@.drop_first());
                }
                let rest = trim_start_class(rest, CharClass::Slash);
                return path_join(h, rest);
            },
            None => {},
        }
    }
    String::from_str(path)
}

/// The directory named by an environment variable's value (with `~` expanded), else `fallback`.
pub fn xdg_dir(value: Option<&str>, home: Option<&str>, fallback: String) -> (r: String)
    ensures
        r@ == xdg_dir_spec(
            match value {
                Some(v) => Some(v@),
                None => None,
            },
            match home {
                Some(h) => Some(h@),
                None => None,
            },
            fallback@,
        ),
{
    match value {
        Some(v) => expanduser(v, home),
        None => fallback,
    }
}

/// The home directory, else `.`.
pub fn xdg_dir_home(home: Option<&str>) -> (r: String)
    ensures
        r@ == home_dir_spec(
            match home {
                Some(h) => Some(h@),
                None => None,
            },
        ),
{
    match home {
        Some(h) => String::from_str(h),
        None => String::from_str("."),
    }
}

fn opt_str(v: &Option<String>) -> (r: Option<&str>)
    ensures
        match r {
            Some(s) => opt_view(*v) == Some(s@),
            None => opt_view(*v) is None,
        },
{
    match v {
        Some(s) => Some(s.as_str()),
        None => None,
    }
}

/// `$XDG_CONFIG_HOME`, else `~/.config`.
pub fn config_home(env: &Environment) -> (r: String)
    ensures
        r@ == config_home_spec(*env),
{
    let home = opt_str(&env.home);
    let base = xdg_dir_home(home);
    let fallback = path_join(base.as_str(), ".config");
    xdg_dir(opt_str(&env.xdg_config_home), home, fallback)
}

/// `$XDG_CACHE_HOME`, else `~/.cache`.
pub fn cache_home(env: &Environment) -> (r: String)
    ensures
        r@ == cache_home_spec(*env),
{
    let home = opt_str(&env.home);
    let base = xdg_dir_home(home);
    let fallback = path_join(base.as_str(), ".cache");
    xdg_dir(opt_str(&env.xdg_cache_home), home, fallback)
}

/// The directory of the settings file.
pub fn config_dir(env: &Environment) -> (r: String)
    ensures
        r@ == config_dir_spec(*env),
{
    path_join(config_home(env).as_str(), "tailscale-ui")
}

/// The directory of the pid file of the local web interface.
pub fn cache_dir(env: &Environment) -> (r: String)
    ensures
        r@ == cache_dir_spec(*env),
{
    path_join(cache_home(env).as_str(), "tailscale-ui")
}

/// The directory of login autostart entries.
pub fn autostart_dir(env: &Environment) -> (r: String)
    ensures
        r@ == autostart_dir_spec(*env),
{
    path_join(config_home(env).as_str(), "autostart")
}

/// The autostart entry of the tray.
pub fn autostart_file(env: &Environment) -> (r: String)
    ensures
        r@ == autostart_file_spec(*env),
{
    path_join(autostart_dir(env).as_str(), "tailscale-ui.desktop")
}

/// The settings file.
pub fn config_file(env: &Environment) -> (r: String)
    ensures
        r@ == config_file_spec(*env),
{
    path_join(config_dir(env).as_str(), "config.json")
}

/// The pid file of the local web interface.
pub fn local_web_pid_file(env: &Environment) -> (r: String)
    ensures
        r@ == local_web_pid_file_spec(*env),
{
    path_join(cache_dir(env).as_str(), "local-web-interface.pid")
}


/// The entries of a `PATH`-style list: the text between `:` separators, empty entries
/// included (`std::env::split_paths` on Unix).
pub open spec fn split_paths_spec(s: Seq<char>) -> Seq<Seq<char>>
    decreases s.len(),
{
    if s.len() == 0 {
        seq![Seq::empty()]
    } else {
        let r = split_paths_spec(s.drop_last());
        if s.last() == ':' {
            r.push(Seq::empty())
        } else {
            r.update(r.len() - 1, r.last().push(s.last()))
        }
    }
}

/// Where a command named `command` would be found along a `PATH` value: each entry joined
/// with the command name.
pub open spec fn command_candidates_spec(path_var: Seq<char>, command: Seq<char>) -> Seq<
    Seq<char>,
> {
    split_paths_spec(path_var).map_values(|dir: Seq<char>| path_join_spec(dir, command))
}

proof fn lemma_split_paths_nonempty(s: Seq<char>)
    ensures
        split_paths_spec(s).len() > 0,
    decreases s.len(),
{
    if s.len() > 0 {
        lemma_split_paths_nonempty(s.drop_last());
    }
}

/// Splits a `PATH`-style list at each `:`.
pub fn split_paths(s: &str) -> (r: Vec<String>)
    ensures
        r.deep_view() == split_paths_spec(s@),
{
    let n = s.unicode_len();
    let mut out: Vec<String> = Vec::new();
    let mut cur = String::new();
    let mut i: usize = 0;
    proof {
        assert(s@.take(0) =~= Seq::<char>::empty());
    }
    while i < n
        invariant
            n == s@.len(),
            i <= n,
            out.deep_view().push(cur@) == split_paths_spec(s@.take(i as int)),
        decreases n - i,
    {
        let c = s.get_char(i);
        let ghost before = split_paths_spec(s@.take(i as int));
        proof {
            lemma_split_paths_nonempty(s@.take(i as int));
            let t = s@.take(i + 1);
            assert(t.drop_last() =~= s@.take(i as int));
            assert(t.last() == c);
        }
        if c == ':' {
            let done = cur;
            out.push(done);
            cur = String::new();
            proof {
                assert(out.deep_view().push(cur@) =~= before.push(Seq::<char>::empty()));
            }
        } else {
            push_char(&mut cur, c);
            proof {
                assert(out.deep_view().push(cur@) =~= before.update(
                    before.len() - 1,
                    before.last().push(c),
                ));
            }
        }
        i = i + 1;
    }
    out.push(cur);
    proof {
        assert(s@.take(n as int) =~= s@);
        assert(out.deep_view() =~= split_paths_spec(s@));
    }
    out
}

/// The places where the command would be found along the `PATH` value.
pub fn command_candidates(path_var: &str, command: &str) -> (r: Vec<String>)
    ensures
        r.deep_view() == command_candidates_spec(path_var@, command@),
{
    let dirs = split_paths(path_var);
    let mut out: Vec<String> = Vec::new();
    let n = dirs.len();
    let mut i: usize = 0;
    while i < n
        invariant
            n == dirs@.len(),
            i <= n,
            out@.len() == i,
            forall|k: int|
                0 <= k < i ==> #[trigger] out@[k]@ == path_join_spec(dirs@[k]@, command@),
        decreases n - i,
    {
        out.push(path_join(dirs[i].as_str(), command));
        i = i + 1;
    }
    proof {
        assert(out.deep_view() =~= command_candidates_spec(path_var@, command@));
    }
    out
}

} // verus!
