use pika::proxy_util::{
    choose_proxy_services, facing_services, iface_may_have_ipv4, is_user_facing_service,
    is_vpn_service_name, linux_no_proxy, parse_bypass_entries, parse_network_services,
    parse_service_device, proxy_address, service_header_name, proxy_url, windows_proxy_override, DEFAULT_BYPASS_LIST,
};

fn strings(v: &[&str]) -> Vec<String> {
    v.iter().map(|s| s.to_string()).collect()
}

#[test]
fn user_facing_matches_colleague_pr7() {
    assert!(is_user_facing_service("Wi-Fi"));
    assert!(is_user_facing_service("Ethernet"));
    assert!(is_user_facing_service("USB 10/100/1000 LAN"));
    assert!(!is_user_facing_service("Thunderbolt Bridge"));
    assert!(!is_user_facing_service("Shadowrocket"));
    assert!(!is_user_facing_service("USB 10/100/1000 LAN 2"));
}

#[test]
fn parse_wifi_device_from_service_order() {
    let order = "\
(1) Ethernet\n\
(Hardware Port: Ethernet, Device: en0)\n\
\n\
(17) Wi-Fi\n\
(Hardware Port: Wi-Fi, Device: en1)\n";
    assert_eq!(parse_service_device(order, "Ethernet").as_deref(), Some("en0"));
    assert_eq!(parse_service_device(order, "Wi-Fi").as_deref(), Some("en1"));
}

#[test]
fn service_device_edge_cases() {
    let order = "(2) *Disabled Service\n(Hardware Port: X, Device: en5 ))\n(3) Other\n(Hardware Port: Y)\n";
    assert_eq!(parse_service_device(order, "Disabled Service").as_deref(), Some("en5"));
    assert_eq!(parse_service_device(order, "Other"), None);
    assert_eq!(parse_service_device(order, "Missing"), None);
}

#[test]
fn bypass_entries() {
    assert_eq!(parse_bypass_entries(Some(" a.com ; b.com,\n c ,, ")), strings(&["a.com", "b.com", "c"]));
    let defaults = parse_bypass_entries(None);
    assert_eq!(defaults.len(), 20);
    assert_eq!(defaults[0], "localhost");
    assert_eq!(defaults[19], "192.168.*");
    assert_eq!(parse_bypass_entries(Some("   ")), defaults);
    assert!(parse_bypass_entries(Some(";;,")).is_empty());
}

#[test]
fn bypass_lists_per_platform() {
    assert_eq!(windows_proxy_override(Some("a,b")), "a;b");
    assert_eq!(linux_no_proxy(Some("a;b")), "a,b");
    assert_eq!(windows_proxy_override(Some(",")), DEFAULT_BYPASS_LIST);
    assert_eq!(linux_no_proxy(Some(";")), DEFAULT_BYPASS_LIST.replace(';', ","));
    assert_eq!(windows_proxy_override(None), DEFAULT_BYPASS_LIST);
}

#[test]
fn proxy_strings() {
    assert_eq!(proxy_address("127.0.0.1", 12080), "127.0.0.1:12080");
    assert_eq!(proxy_url("http", "127.0.0.1", 7), "http://127.0.0.1:7");
    assert_eq!(proxy_url("socks5h", "h", 0), "socks5h://h:0");
    assert_eq!(proxy_url("https", "h", 65535), "https://h:65535");
}

#[test]
fn vpn_service_names() {
    assert!(is_vpn_service_name("ShadowRocket"));
    assert!(is_vpn_service_name("VPN"));
    assert!(is_vpn_service_name("Company VPN"));
    assert!(!is_vpn_service_name("vpnx"));
    assert!(!is_vpn_service_name("Wi-Fi"));
}

#[test]
fn network_services_listing() {
    let out = "An asterisk (*) denotes that a network service is disabled.\nWi-Fi\n*Ethernet\n*\n\nThunderbolt Bridge\n";
    assert_eq!(parse_network_services(out), strings(&["Wi-Fi", "Ethernet", "Thunderbolt Bridge"]));
    assert!(parse_network_services("").is_empty());
}

#[test]
fn interfaces_worth_probing() {
    assert!(iface_may_have_ipv4("en1"));
    assert!(!iface_may_have_ipv4(""));
    assert!(!iface_may_have_ipv4("utun3"));
    assert!(!iface_may_have_ipv4("lo0"));
}

#[test]
fn services_that_receive_the_proxy() {
    let all = strings(&["Ethernet", "Thunderbolt Bridge", "Wi-Fi", "Shadowrocket", "USB 10/100/1000 LAN 2"]);
    let facing = facing_services(&all);
    assert_eq!(facing, strings(&["Ethernet", "Wi-Fi", "Shadowrocket"]));
    // Ethernet has no address, Wi-Fi is always kept
    assert_eq!(choose_proxy_services(&facing, &vec![false, false, true]), strings(&["Shadowrocket", "Wi-Fi"]));
    // nothing live and no Wi-Fi: every candidate
    let wired = strings(&["Ethernet", "Shadowrocket"]);
    assert_eq!(choose_proxy_services(&wired, &vec![]), strings(&["Ethernet", "Shadowrocket"]));
    let dup = strings(&["Wi-Fi", "Wi-Fi"]);
    assert_eq!(choose_proxy_services(&dup, &vec![true, true]), strings(&["Wi-Fi"]));
}

#[test]
fn service_header_lines() {
    assert_eq!(service_header_name(" (17) *Wi-Fi ", true), Some(Some("Wi-Fi".to_string())));
    assert_eq!(service_header_name("(3) ", true), Some(None));
    assert_eq!(service_header_name("(Hardware Port: Wi-Fi)", false), None);
}
