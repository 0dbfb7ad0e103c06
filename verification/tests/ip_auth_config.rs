//! Address parsing, CIDR membership, the admission rule and the configuration
//! commands.

use bridge::auth::{authorize, AuthOutcome};
use bridge::config::{AppConfig, ConfigUpdate};
use bridge::ip::{ip_matches_cidr, ipv4_to_string, is_ip_in_list, parse_ip, parse_ipv4, parse_ipv6, Ip};
use bridge::netutil::get_local_ips;

fn strings(v: &[&str]) -> Vec<String> {
    v.iter().map(|s| s.to_string()).collect()
}

#[test]
fn ipv4_parses_canonical_quads() {
    assert_eq!(parse_ipv4("127.0.0.1"), Some(0x7f000001));
    assert_eq!(parse_ipv4("0.0.0.0"), Some(0));
    assert_eq!(parse_ipv4("255.255.255.255"), Some(0xffffffff));
    assert_eq!(parse_ipv4("10.0.0.1"), Some(0x0a000001));
}

#[test]
fn ipv4_rejects_malformed_quads() {
    assert_eq!(parse_ipv4("256.0.0.1"), None);
    assert_eq!(parse_ipv4("01.2.3.4"), None);
    assert_eq!(parse_ipv4("1.2.3"), None);
    assert_eq!(parse_ipv4("1.2.3.4.5"), None);
    assert_eq!(parse_ipv4("1.2.3.x"), None);
    assert_eq!(parse_ipv4(""), None);
}

#[test]
fn ipv6_parses_standard_forms() {
    assert_eq!(parse_ipv6("::1"), Some(1));
    assert_eq!(parse_ipv6("::"), Some(0));
    assert_eq!(parse_ipv6("1:2:3:4:5:6:7:8"),
        Some(0x00010002000300040005000600070008));
    assert_eq!(parse_ipv6("2001:db8::1"),
        Some(0x20010db8000000000000000000000001));
    assert_eq!(parse_ipv6("::ffff:1.2.3.4"), Some(0xffff01020304));
    assert_eq!(parse_ipv6("1:2:3:4:5:6:1.2.3.4"),
        Some(0x00010002000300040005000601020304));
}

#[test]
fn ipv6_rejects_malformed_forms() {
    assert_eq!(parse_ipv6(":::"), None);
    assert_eq!(parse_ipv6("1:2:3:4:5:6:7:8:9"), None);
    assert_eq!(parse_ipv6("1:2:3"), None);
    assert_eq!(parse_ipv6("12345::"), None);
    assert_eq!(parse_ipv6("1::2::3"), None);
}

#[test]
fn parse_ip_tries_both_families() {
    assert_eq!(parse_ip("10.0.0.1"), Some(Ip::V4(0x0a000001)));
    assert_eq!(parse_ip("::1"), Some(Ip::V6(1)));
    assert_eq!(parse_ip("host"), None);
}

#[test]
fn cidr_membership_is_top_bits_equality() {
    let net = Ip::V4(0x0a000000);
    assert!(ip_matches_cidr(&Ip::V4(0x0a1234ff), &net, 8));
    assert!(!ip_matches_cidr(&Ip::V4(0x0b000001), &net, 8));
    // the whole space at prefix zero
    assert!(ip_matches_cidr(&Ip::V4(0xffffffff), &net, 0));
    // full-length prefixes compare exactly
    assert!(ip_matches_cidr(&Ip::V4(0x0a000000), &net, 32));
    assert!(!ip_matches_cidr(&Ip::V4(0x0a000001), &net, 32));
    // out-of-range prefixes fail closed
    assert!(!ip_matches_cidr(&Ip::V4(0x0a000000), &net, 33));
    // mismatched families never match
    assert!(!ip_matches_cidr(&Ip::V6(0), &net, 8));
    let net6 = Ip::V6(0x20010db8 << 96);
    assert!(ip_matches_cidr(&Ip::V6((0x20010db8 << 96) | 0xdead), &net6, 32));
    assert!(!ip_matches_cidr(&Ip::V6(0x20010db9 << 96), &net6, 32));
    assert!(!ip_matches_cidr(&Ip::V6(0), &net6, 129));
}

#[test]
fn list_membership_by_text_and_range() {
    let list = strings(&["10.0.0.1", "192.168.0.0/16", "2001:db8::/32"]);
    assert!(is_ip_in_list("10.0.0.1", &list));
    assert!(is_ip_in_list("192.168.44.5", &list));
    assert!(is_ip_in_list("2001:db8::77", &list));
    assert!(!is_ip_in_list("10.0.0.2", &list));
    assert!(!is_ip_in_list("not-an-ip", &list));
}

#[test]
fn blocked_address_loses_to_nothing() {
    // a block-listed client is refused even with a valid token while the
    // token protection is disabled
    let mut config = AppConfig::default();
    config.auth.enabled = false;
    config.auth.api_key = Some("K".to_string());
    config.auth.blocked_ips = strings(&["10.0.0.1"]);
    let r = authorize(&config.auth, "10.0.0.1", Some("Bearer K"), false, None);
    assert_eq!(r, AuthOutcome::Blocked);
}

#[test]
fn admission_checks_tokens() {
    let mut config = AppConfig::default();
    config.auth.enabled = true;
    config.auth.api_key = Some("K".to_string());
    assert_eq!(authorize(&config.auth, "10.0.0.2", Some("Bearer K"), false, None), AuthOutcome::Admit);
    assert_eq!(authorize(&config.auth, "10.0.0.2", Some("Bearer X"), false, None), AuthOutcome::Unauthorized);
    assert_eq!(authorize(&config.auth, "10.0.0.2", None, false, None), AuthOutcome::Unauthorized);
    // the query credential counts on the socket endpoint only
    assert_eq!(authorize(&config.auth, "10.0.0.2", None, true, Some("a=b&api_key=K")), AuthOutcome::Admit);
    assert_eq!(authorize(&config.auth, "10.0.0.2", None, false, Some("api_key=K")), AuthOutcome::Unauthorized);
}

#[test]
fn admission_open_paths() {
    let mut config = AppConfig::default();
    config.auth.enabled = false;
    assert_eq!(authorize(&config.auth, "10.0.0.2", None, false, None), AuthOutcome::Admit);
    config.auth.enabled = true;
    config.auth.api_key = None;
    assert_eq!(authorize(&config.auth, "10.0.0.2", None, false, None), AuthOutcome::Admit);
    config.auth.api_key = Some("K".to_string());
    config.auth.allowed_ips = strings(&["10.0.0.0/8"]);
    assert_eq!(authorize(&config.auth, "10.9.9.9", None, false, None), AuthOutcome::Admit);
}

#[test]
fn default_configuration_values() {
    let c = AppConfig::default();
    assert_eq!(c.server.port, 9990);
    assert_eq!(c.server.host, "0.0.0.0");
    assert!(!c.features.enable_shutdown);
    assert!(c.features.enable_stats);
    assert_eq!(c.stats.disk_cache_seconds, 30);
    assert_eq!(c.websocket.stats.interval_ms, 1000);
    assert_eq!(c.websocket.media.interval_ms, 500);
    assert_eq!(c.websocket.processes.interval_ms, 3000);
    assert!(!c.auth.enabled);
}

#[test]
fn interval_update_validates_and_applies() {
    let mut c = AppConfig::default();
    // the running loop reads the interval each tick, so this needs no restart
    assert!(c.update_ws_interval("stats", 200).is_ok());
    assert_eq!(c.websocket.stats.interval_ms, 200);
    let err = c.update_ws_interval("stats", 50).unwrap_err();
    assert_eq!(err, "Interval must be between 100ms and 60000ms");
    let err2 = c.update_ws_interval("weather", 500).unwrap_err();
    assert_eq!(err2, "Invalid topic. Use: stats, media, or processes");
    assert_eq!(c.websocket.stats.interval_ms, 200);
}

#[test]
fn port_host_and_ranges_validate() {
    let mut c = AppConfig::default();
    assert_eq!(c.update_server_port(80).unwrap_err(), "Port must be >= 1024");
    assert!(c.update_server_port(8080).is_ok());
    assert_eq!(c.server.port, 8080);
    assert_eq!(c.update_server_host("nonsense".to_string()).unwrap_err(), "Invalid IP address");
    assert!(c.update_server_host("127.0.0.1".to_string()).is_ok());
    assert_eq!(c.update_disk_cache_seconds(0).unwrap_err(), "Seconds must be between 1 and 300");
    assert!(c.update_disk_cache_seconds(300).is_ok());
    assert_eq!(c.update_stream_interval(61).unwrap_err(), "Seconds must be between 1 and 60");
    assert!(c.update_stream_interval(5).is_ok());
}

#[test]
fn feature_toggle_flips_one_flag() {
    let mut c = AppConfig::default();
    assert!(c.toggle_feature("media").is_ok());
    assert!(!c.features.enable_media);
    assert!(c.features.enable_processes);
    assert!(c.toggle_feature("media").is_ok());
    assert!(c.features.enable_media);
    assert_eq!(c.toggle_feature("warp").unwrap_err(), "Feature not found");
}

#[test]
fn ip_lists_validate_and_dedupe() {
    let mut c = AppConfig::default();
    assert!(c.add_blocked_ip("10.0.0.1".to_string()).is_ok());
    assert!(c.add_blocked_ip("10.0.0.1".to_string()).is_ok());
    assert_eq!(c.auth.blocked_ips.len(), 1);
    assert!(c.add_blocked_ip("192.168.0.0/16".to_string()).is_ok());
    assert_eq!(c.add_blocked_ip("bogus".to_string()).unwrap_err(), "Invalid IP address or CIDR");
    c.remove_blocked_ip("10.0.0.1");
    assert_eq!(c.auth.blocked_ips, strings(&["192.168.0.0/16"]));
    c.clear_blocked_ips();
    assert!(c.auth.blocked_ips.is_empty());
}

#[test]
fn batch_update_touches_present_fields_only() {
    let mut c = AppConfig::default();
    c.update_config(ConfigUpdate {
        server_port: Some(9000),
        server_host: None,
        display_hostname: Some("den".to_string()),
        stats_gpu_enabled: Some(false),
        stats_disk_cache_seconds: None,
        stats_stream_interval_seconds: None,
        ws_stats_enabled: None,
        ws_stats_interval_ms: Some(250),
        ws_media_enabled: Some(false),
        ws_media_interval_ms: None,
        ws_processes_enabled: None,
        ws_processes_interval_ms: None,
    });
    assert_eq!(c.server.port, 9000);
    assert_eq!(c.server.host, "0.0.0.0");
    assert_eq!(c.display.hostname, "den");
    assert!(!c.stats.gpu_enabled);
    assert_eq!(c.stats.disk_cache_seconds, 30);
    assert_eq!(c.websocket.stats.interval_ms, 250);
    assert!(!c.websocket.media.enabled);
}

#[test]
fn generated_key_has_the_expected_shape() {
    let mut c = AppConfig::default();
    c.generate_api_key(0x1234);
    let key = c.auth.api_key.unwrap();
    assert!(key.starts_with("ck_1234_"));
}

#[test]
fn local_listing_keeps_shareable_quads() {
    let shown = get_local_ips(vec![
        Ip::V4(0x7f000001),
        Ip::V4(0xc0a80105),
        Ip::V6(1),
        Ip::V4(0x0a000002),
    ]);
    assert_eq!(shown, vec!["192.168.1.5".to_string(), "10.0.0.2".to_string()]);
}

#[test]
fn quad_rendering_round_trips() {
    assert_eq!(ipv4_to_string(0x7f000001), "127.0.0.1");
    assert_eq!(parse_ipv4(&ipv4_to_string(0x0a000001)), Some(0x0a000001));
}
