//! Settings and the texts that they are read from.

use sixhop::auth::constant_time_eq;
use sixhop::config::{load_config, Args, Config, ConfigError, EnvConfig, FileConfig};
use sixhop::text::{is_true, parse_decimal, split, split_list, trim};

fn file(bind: Option<&str>) -> FileConfig {
    FileConfig {
        bind_addr: bind.map(|s| s.to_string()),
        username: None,
        password: None,
        random_egress_ipv6: None,
        ipv6_blocks: None,
        force_ipv6: None,
        buffer_size: None,
        max_connections: None,
        handshake_timeout: None,
        idle_timeout: None,
        log_level: None,
    }
}

fn env(bind: Option<&str>) -> EnvConfig {
    EnvConfig {
        bind: bind.map(|s| s.to_string()),
        username: None,
        password: None,
        random_ipv6: None,
        ipv6_blocks: None,
        force_ipv6: None,
        buffer_size: None,
        max_connections: None,
        handshake_timeout: None,
        idle_timeout: None,
        log: None,
    }
}

fn args(bind: Option<&str>) -> Args {
    Args {
        bind: bind.map(|s| s.to_string()),
        username: None,
        password: None,
        random_ipv6: None,
        ipv6_block: Vec::new(),
        force_ipv6: None,
        buffer_size: None,
        max_connections: None,
        handshake_timeout: None,
        idle_timeout: None,
        log_level: None,
    }
}

fn some(s: &str) -> Option<String> {
    Some(s.to_string())
}

#[test]
fn defaults() {
    let c = load_config(file(None), env(None), args(None)).unwrap();
    assert_eq!(c, Config::default());
    assert_eq!(c.bind_addr, "0.0.0.0:1080");
    assert_eq!(c.username, None);
    assert_eq!(c.password, None);
    assert!(!c.random_egress_ipv6);
    assert!(c.ipv6_blocks.is_empty());
    assert!(!c.force_ipv6);
    assert_eq!(c.buffer_size, 4096);
    assert_eq!(c.max_connections, 0);
    assert_eq!(c.handshake_timeout_secs, 10);
    assert_eq!(c.idle_timeout_secs, 0);
    assert_eq!(c.log_level, "info");
    assert!(!c.auth_required());
    assert!(!c.refuses_ipv4());
    assert_eq!(c.idle_timeout(), None);
}

#[test]
fn the_command_line_comes_first() {
    let bind = |f, e, a| load_config(file(f), env(e), args(a)).unwrap().bind_addr;
    assert_eq!(bind(Some("f"), Some("e"), Some("a")), "a");
    assert_eq!(bind(Some("f"), Some("e"), None), "e");
    assert_eq!(bind(Some("f"), None, None), "f");
    assert_eq!(bind(None, None, Some("a")), "a");
}

#[test]
fn every_setting_of_each_source() {
    let mut f = file(None);
    f.username = some("fu");
    f.password = some("fp");
    f.random_egress_ipv6 = Some(true);
    f.ipv6_blocks = Some(vec!["f1".to_string(), "f2, f3".to_string()]);
    f.force_ipv6 = Some(true);
    f.buffer_size = Some(2048);
    f.max_connections = Some(3);
    f.handshake_timeout = Some(4);
    f.idle_timeout = Some(5);
    f.log_level = some("warn");
    let c = load_config(f, env(None), args(None)).unwrap();
    assert_eq!((c.username, c.password), (some("fu"), some("fp")));
    assert!(c.random_egress_ipv6 && c.force_ipv6);
    assert_eq!(c.ipv6_blocks, vec!["f1", "f2, f3"]);
    assert_eq!((c.buffer_size, c.max_connections), (2048, 3));
    assert_eq!((c.handshake_timeout_secs, c.idle_timeout_secs), (4, 5));
    assert_eq!(c.log_level, "warn");

    let mut f = file(None);
    f.random_egress_ipv6 = Some(true);
    f.ipv6_blocks = Some(vec!["f".to_string()]);
    f.buffer_size = Some(2048);
    f.idle_timeout = Some(5);
    let mut e = env(None);
    e.username = some("eu");
    e.password = some("ep");
    e.random_ipv6 = some("no");
    e.ipv6_blocks = some(" e1 ,, e2,");
    e.force_ipv6 = some("TRUE");
    e.buffer_size = some("many");
    e.max_connections = some("+7");
    e.handshake_timeout = some("8");
    e.idle_timeout = some("9");
    e.log = some("debug");
    let mut a = args(None);
    a.ipv6_block = vec!["a1,a2".to_string()];
    a.idle_timeout = Some(6);
    let c = load_config(f, e, a).unwrap();
    assert_eq!((c.username.clone(), c.password.clone()), (some("eu"), some("ep")));
    assert!(c.auth_required());
    assert!(!c.random_egress_ipv6);
    assert!(c.force_ipv6);
    assert!(!c.refuses_ipv4());
    assert_eq!(c.ipv6_blocks, vec!["a1,a2"]);
    assert_eq!((c.buffer_size, c.max_connections), (2048, 7));
    assert_eq!((c.handshake_timeout_secs, c.idle_timeout_secs), (8, 6));
    assert_eq!(c.idle_timeout(), Some(6));
    assert_eq!(c.log_level, "debug");
}

#[test]
fn settings_that_are_refused() {
    let mut a = args(None);
    a.random_ipv6 = Some(true);
    assert_eq!(load_config(file(None), env(None), a), Err(ConfigError::BlocksMissing));
    let mut a = args(None);
    a.username = some("u");
    assert_eq!(load_config(file(None), env(None), a), Err(ConfigError::CredentialsIncomplete));
    let mut e = env(None);
    e.password = some("p");
    assert_eq!(load_config(file(None), e, args(None)), Err(ConfigError::CredentialsIncomplete));
    let mut a = args(None);
    a.random_ipv6 = Some(true);
    a.username = some("u");
    assert_eq!(load_config(file(None), env(None), a), Err(ConfigError::BlocksMissing));
    assert_eq!(
        ConfigError::BlocksMissing.message(),
        "random_egress_ipv6 已启用，但未配置 ipv6_blocks"
    );
    assert_eq!(
        ConfigError::CredentialsIncomplete.message(),
        "username 和 password 必须同时配置或同时不配置"
    );
}

#[test]
fn credentials_from_two_sources_are_complete() {
    let mut f = file(None);
    f.username = some("u");
    let mut a = args(None);
    a.password = some("p");
    let c = load_config(f, env(None), a).unwrap();
    assert!(c.auth_required());
}

#[test]
fn the_buffer_has_limits() {
    for (wanted, got) in [(0, 1024), (1023, 1024), (1024, 1024), (5000, 5000), (65536, 65536), (65537, 65536)] {
        let mut a = args(None);
        a.buffer_size = Some(wanted);
        assert_eq!(load_config(file(None), env(None), a).unwrap().buffer_size, got);
    }
}

#[test]
fn numbers() {
    assert_eq!(parse_decimal("0", 255), Some(0));
    assert_eq!(parse_decimal("+12", 255), Some(12));
    assert_eq!(parse_decimal("000255", 255), Some(255));
    assert_eq!(parse_decimal("256", 255), None);
    assert_eq!(parse_decimal("", 255), None);
    assert_eq!(parse_decimal("+", 255), None);
    assert_eq!(parse_decimal("++1", 255), None);
    assert_eq!(parse_decimal("-1", 255), None);
    assert_eq!(parse_decimal(" 1", 255), None);
    assert_eq!(parse_decimal("1a", 255), None);
    assert_eq!(parse_decimal("18446744073709551615", u64::MAX), Some(u64::MAX));
    assert_eq!(parse_decimal("18446744073709551616", u64::MAX), None);
    assert_eq!(parse_decimal("99999999999999999999999", u64::MAX), None);
    for s in ["7", "+7", "0007", "", "+", "-7", "7 ", "300", "１"] {
        assert_eq!(parse_decimal(s, 255), s.parse::<u8>().ok().map(|n| n as u64));
    }
}

#[test]
fn flags() {
    for s in ["true", "TRUE", "tRuE", "1"] {
        assert!(is_true(s));
    }
    for s in ["", "false", "0", "yes", "11", " true", "truE ", "trué"] {
        assert!(!is_true(s));
    }
}

#[test]
fn trimming_and_splitting() {
    for s in ["", " ", "a", " a b\t", "\u{3000}x\u{a0}\n", "\u{200b}x", "\u{85}\u{1680}y\u{2028}"] {
        assert_eq!(trim(s), s.trim());
    }
    for s in ["", ",", "a", "a,b", ",a,,b,", "é,ü"] {
        assert_eq!(split(s, ','), s.split(',').collect::<Vec<&str>>());
        assert_eq!(split(s, ',').join(","), s);
    }
    assert_eq!(split_list(" a ,b,, ,c d "), vec!["a", "b", "c d"]);
    assert_eq!(split_list(" , "), Vec::<String>::new());
}

#[test]
fn one_list_or_two() {
    let mut both = split_list("a, b");
    both.extend(split_list("c,,d"));
    assert_eq!(split_list("a, b,c,,d"), both);
}

#[test]
fn every_space_is_trimmed() {
    for n in 0..=0x10ffffu32 {
        if let Some(c) = char::from_u32(n) {
            let s = c.to_string();
            assert_eq!(trim(&s).is_empty(), c.is_whitespace());
        }
    }
}

#[test]
fn comparing_bytes() {
    assert!(constant_time_eq(b"", b""));
    assert!(constant_time_eq(b"abc", b"abc"));
    assert!(!constant_time_eq(b"abc", b"abd"));
    assert!(!constant_time_eq(b"xbc", b"abc"));
    assert!(!constant_time_eq(b"abc", b"ab"));
}

#[test]
fn blocks_follow_the_order_of_the_others() {
    let blocks = |f: Option<Vec<&str>>, e: Option<&str>, a: Vec<&str>| {
        let mut fc = file(None);
        fc.ipv6_blocks = f.map(|v| v.iter().map(|s| s.to_string()).collect());
        let mut ec = env(None);
        ec.ipv6_blocks = e.map(|s| s.to_string());
        let mut ac = args(None);
        ac.ipv6_block = a.iter().map(|s| s.to_string()).collect();
        load_config(fc, ec, ac).unwrap().ipv6_blocks
    };
    let aaaa = "2001:db8:aaaa::/48";
    let other = "2400:1234::/64";
    assert_eq!(blocks(Some(vec![aaaa]), None, vec![other]), vec![other]);
    assert_eq!(blocks(Some(vec![aaaa]), Some("1::/16"), vec![other]), vec![other]);
    assert_eq!(blocks(Some(vec![aaaa]), Some(" 1::/16 ,, 2::/16,"), vec![]), vec!["1::/16", "2::/16"]);
    assert_eq!(blocks(None, Some("1::/16"), vec![other, aaaa]), vec![other, aaaa]);
    assert_eq!(blocks(Some(vec![aaaa, other]), None, vec![]), vec![aaaa, other]);
    assert_eq!(blocks(Some(vec![aaaa]), Some(" , "), vec![]), vec![aaaa]);
    assert_eq!(blocks(None, Some(""), vec![]), Vec::<String>::new());
}
