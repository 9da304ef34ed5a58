use tailscale_ui::config::{
    autostart_dir, autostart_file, cache_dir, cache_home, command_candidates, config_dir,
    config_file, config_home, expanduser, local_web_pid_file, path_join, split_paths, xdg_dir,
    xdg_dir_home, AppConfig, Environment,
};

fn env(home: Option<&str>, config: Option<&str>, cache: Option<&str>) -> Environment {
    Environment {
        home: home.map(|s| s.to_string()),
        xdg_config_home: config.map(|s| s.to_string()),
        xdg_cache_home: cache.map(|s| s.to_string()),
    }
}

#[test]
fn default_config_values() {
    let c = AppConfig::default();
    assert!(c.use_exit_node);
    assert!(!c.exit_node_allow_lan_access);
    assert!(c.autostart_enabled);
    assert!(c.preferred_exit_node_id.is_empty());
}

#[test]
fn path_join_like_pathbuf() {
    let cases = [
        ("/home/u", ".config", "/home/u/.config"),
        ("/home/u/", "x", "/home/u/x"),
        ("", "x", "x"),
        ("a", "/abs", "/abs"),
        ("a", "", "a/"),
    ];
    for (a, b, expected) in cases {
        assert_eq!(path_join(a, b), expected, "{a:?} {b:?}");
    }
}

#[test]
fn expanduser_replaces_tilde() {
    assert_eq!(expanduser("~/conf", Some("/home/u")), "/home/u/conf");
    assert_eq!(expanduser("~//conf", Some("/home/u")), "/home/u/conf");
    assert_eq!(expanduser("~", Some("/home/u")), "/home/u/");
    assert_eq!(expanduser("~/conf", None), "~/conf");
    assert_eq!(expanduser("/etc/x", Some("/home/u")), "/etc/x");
    assert_eq!(xdg_dir(Some("~/c"), Some("/h"), "fallback".to_string()), "/h/c");
    assert_eq!(xdg_dir(None, Some("/h"), "fallback".to_string()), "fallback");
    assert_eq!(xdg_dir_home(None), ".");
    assert_eq!(xdg_dir_home(Some("/h")), "/h");
}

#[test]
fn settings_locations() {
    let e = env(Some("/home/u"), None, None);
    assert_eq!(config_home(&e), "/home/u/.config");
    assert_eq!(cache_home(&e), "/home/u/.cache");
    assert_eq!(config_dir(&e), "/home/u/.config/tailscale-ui");
    assert_eq!(cache_dir(&e), "/home/u/.cache/tailscale-ui");
    assert_eq!(autostart_dir(&e), "/home/u/.config/autostart");
    assert_eq!(autostart_file(&e), "/home/u/.config/autostart/tailscale-ui.desktop");
    assert_eq!(config_file(&e), "/home/u/.config/tailscale-ui/config.json");
    assert_eq!(local_web_pid_file(&e), "/home/u/.cache/tailscale-ui/local-web-interface.pid");
    let e = env(Some("/home/u"), Some("~/cfg"), Some("/var/cache/u"));
    assert_eq!(config_file(&e), "/home/u/cfg/tailscale-ui/config.json");
    assert_eq!(local_web_pid_file(&e), "/var/cache/u/tailscale-ui/local-web-interface.pid");
    let e = env(None, None, None);
    assert_eq!(config_dir(&e), "./.config/tailscale-ui");
}

#[test]
fn path_lists_split_at_colons() {
    assert_eq!(split_paths("/usr/bin:/bin"), vec!["/usr/bin", "/bin"]);
    assert_eq!(split_paths(""), vec![""]);
    assert_eq!(split_paths("a::b:"), vec!["a", "", "b", ""]);
    assert_eq!(command_candidates("/usr/bin::/bin/", "tailscale"), vec![
        "/usr/bin/tailscale",
        "tailscale",
        "/bin/tailscale",
    ]);
}
