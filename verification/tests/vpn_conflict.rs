use pika::vpn_conflict::{
    conflict_notice, detect_connected_vpn_services, detect_vpn_conflicts, extract_quoted_name,
    parse_connected_vpn_name, parse_default_route_interface, vpn_conflict_cleared_payload,
    vpn_conflict_detected_payload, ConflictNotice, VpnConflict, VpnConflictReport,
};

fn conflict(name: &str, kind: &str) -> VpnConflict {
    VpnConflict { name: name.to_string(), kind: kind.to_string(), detail: String::new() }
}

#[test]
fn extract_quoted_name_from_scutil_line() {
    let line = r#"* (Connected)      B1C946CD-A531-48DE-9273-8EECBF82080E VPN (com.liguangming.Shadowrocket) "Shadowrocket"                   [VPN:com.liguangming.Shadowrocket]"#;
    assert_eq!(extract_quoted_name(line).as_deref(), Some("Shadowrocket"));
}

#[test]
fn quoted_name_edge_cases() {
    assert_eq!(extract_quoted_name("no quotes"), None);
    assert_eq!(extract_quoted_name("one \" quote"), None);
    assert_eq!(extract_quoted_name("blank \"   \" name"), None);
    assert_eq!(extract_quoted_name("\" padded \""), Some("padded".to_string()));
}

#[test]
fn report_summary_and_empty() {
    let empty = VpnConflictReport::empty();
    assert!(!empty.has_conflict && !empty.proxy_hijacked);
    assert_eq!(empty.summary(), "");
    let report = detect_vpn_conflicts(
        12080,
        vec![conflict("Surge", "vpn"), conflict("Clash", "proxy"), conflict("Surge", "vpn")],
    );
    assert!(report.has_conflict);
    assert!(!report.proxy_hijacked);
    assert_eq!(report.conflicts.len(), 2);
    assert_eq!(report.conflicts[0].name, "Clash");
    assert_eq!(report.summary(), "Clash（proxy）、Surge（vpn）");
}

#[test]
fn no_vpn_no_conflict() {
    let report = detect_vpn_conflicts(12080, vec![conflict("Clash", "proxy")]);
    assert!(!report.has_conflict);
    assert_eq!(report.summary(), "Clash（proxy）");
}

#[test]
fn route_output_interface() {
    let out = "   route to: default\ndestination: default\n  interface: utun4\r\n      flags: <UP>\n";
    assert_eq!(parse_default_route_interface(out).as_deref(), Some("utun4"));
    assert_eq!(parse_default_route_interface("interface:   \ninterface: en0"), Some("en0".to_string()));
    assert_eq!(parse_default_route_interface(""), None);
}

#[test]
fn nc_list_connected_vpn() {
    let out = "Available network connection services in the current set (*=enabled):\n\
* (Connected)      A sing-box VPN \"sing-box\"\n\
* (Disconnected)   B VPN \"Other\"\n\
* (Connected)      C VPN (com.x.Shadowrocket) \"Shadowrocket\"\n";
    assert_eq!(parse_connected_vpn_name(out).as_deref(), Some("Shadowrocket"));
    assert_eq!(parse_connected_vpn_name("* (Disconnected) \"X\""), None);
}

#[test]
fn connected_vpn_from_default_route() {
    let found = detect_connected_vpn_services(Some("utun3".to_string()), None);
    assert_eq!(found.len(), 1);
    assert_eq!(found[0].name, "系统 VPN");
    assert_eq!(found[0].kind, "vpn");
    assert_eq!(found[0].detail, "默认路由在 utun3，Telegram 等 App 会走这条 VPN 而不是系统代理");
    let named = detect_connected_vpn_services(Some("utun3".to_string()), Some("Surge".to_string()));
    assert_eq!(named[0].name, "Surge");
    assert!(detect_connected_vpn_services(Some("en0".to_string()), None).is_empty());
    assert!(detect_connected_vpn_services(None, None).is_empty());
}

#[test]
fn notices_follow_transitions() {
    let mut last = false;
    let report = detect_vpn_conflicts(1, vec![conflict("Surge", "vpn")]);
    assert_eq!(conflict_notice(&report, &mut last), ConflictNotice::Detected("Surge（vpn）".to_string()));
    assert!(last);
    assert_eq!(conflict_notice(&report, &mut last), ConflictNotice::Unchanged);
    let clear = VpnConflictReport::empty();
    assert_eq!(conflict_notice(&clear, &mut last), ConflictNotice::Cleared);
    assert!(!last);
    assert_eq!(conflict_notice(&clear, &mut last), ConflictNotice::Unchanged);
}

#[test]
fn event_payloads() {
    let detected = vpn_conflict_detected_payload("Surge（vpn）");
    assert_eq!(detected.get("code").and_then(|v| v.as_str()), Some("VPN_CONFLICT_DETECTED"));
    assert_eq!(detected.get("details").and_then(|v| v.as_str()), Some("Surge（vpn）"));
    let cleared = vpn_conflict_cleared_payload(12080);
    assert_eq!(cleared.get("proxy_port").and_then(|v| v.as_u64()), Some(12080));
    assert_eq!(
        cleared.get("message").and_then(|v| v.as_str()),
        Some("其他加速器已关闭，Pika 已接管系统代理")
    );
}
