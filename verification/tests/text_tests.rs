use tailscale_ui::pidfile::{parse_i32, parse_pid_file, pid_file_contents};
use tailscale_ui::text::{
    desktop_escape, i64_to_decimal, lossless_string, str_eq, str_lt, trim, trim_end_class,
    trim_start_class, CharClass,
};

fn unescape(s: &str) -> String {
    let mut out = String::new();
    let mut chars = s.chars();
    while let Some(c) = chars.next() {
        if c == '\\' {
            match chars.next() {
                Some(n) => out.push(n),
                None => out.push('\\'),
            }
        } else {
            out.push(c);
        }
    }
    out
}

#[test]
fn desktop_escape_doubles_backslashes_and_escapes_spaces() {
    assert_eq!(desktop_escape("/usr/bin/tailscale-ui"), "/usr/bin/tailscale-ui");
    assert_eq!(desktop_escape("/opt/My Apps/tray"), "/opt/My\\ Apps/tray");
    assert_eq!(desktop_escape("a\\b c"), "a\\\\b\\ c");
    assert_eq!(desktop_escape(""), "");
}

#[test]
fn desktop_escape_roundtrip_on_examples() {
    for s in ["/opt/My Apps/tray", "a\\ b", "\\\\", "  ", "plain", "é ü\\"] {
        assert_eq!(unescape(&desktop_escape(s)), s);
    }
}

#[test]
fn trim_removes_unicode_white_space() {
    assert_eq!(trim("  hello \n"), "hello");
    assert_eq!(trim("\u{3000}x\u{a0}"), "x");
    assert_eq!(trim(" \t "), "");
    assert_eq!(trim_end_class("host.example.", CharClass::Dot), "host.example");
    assert_eq!(trim_end_class("...", CharClass::Dot), "");
    assert_eq!(trim_start_class("//a/b", CharClass::Slash), "a/b");
}

#[test]
fn lossless_string_decodes_and_trims() {
    assert_eq!(lossless_string(b"  ok\n"), "ok");
    assert_eq!(lossless_string(b""), "");
    assert_eq!(lossless_string(b"a\xffb"), "a\u{fffd}b");
}

#[test]
fn i64_to_decimal_formats_like_to_string() {
    for n in [0i64, 7, 10, 42, -1, -10, 123456789, i64::MAX, i64::MIN] {
        assert_eq!(i64_to_decimal(n), n.to_string());
    }
}

#[test]
fn str_order_and_equality() {
    assert!(str_lt("abc", "abd"));
    assert!(str_lt("ab", "abc"));
    assert!(!str_lt("abc", "abc"));
    assert!(!str_lt("b", "abc"));
    assert!(str_lt("Z", "a"));
    assert!(str_eq("same", "same"));
    assert!(!str_eq("same", "Same"));
}

#[test]
fn parse_i32_accepts_what_str_parse_accepts() {
    for s in ["0", "42", "+42", "-42", "007", "2147483647", "-2147483648", "2147483648",
        "-2147483649", "", "+", "-", "4a", " 4", "99999999999999999999", "--1"] {
        assert_eq!(parse_i32(s), s.parse::<i32>().ok(), "input {:?}", s);
    }
}

#[test]
fn pid_file_roundtrip() {
    for pid in [1, 4242, 0, -7, i32::MAX, i32::MIN] {
        let contents = pid_file_contents(pid);
        assert_eq!(contents, format!("{pid}\n"));
        assert_eq!(parse_pid_file(&contents), Some(pid));
    }
    assert_eq!(parse_pid_file("  123 \n"), Some(123));
    assert_eq!(parse_pid_file("garbage"), None);
    assert_eq!(parse_pid_file(""), None);
}
