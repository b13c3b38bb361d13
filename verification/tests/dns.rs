use pika::dns::{
    build_dns_server_config, default_dns_server_port, dns_server_from_url,
    domain_resolver_config, is_domain, parse_legacy_host_port, split_legacy_host_port, UrlParts,
};

#[test]
fn should_convert_https_legacy_address_to_new_dns_server() {
    let server = build_dns_server_config(
        "dns_proxy",
        "https://1.1.1.1/dns-query",
        Some("ipv4_only"),
        Some("manual"),
        Some("dns_resolver"),
    )
    .expect("https 地址应可转换");

    assert_eq!(server.server_type.as_deref(), Some("https"));
    assert_eq!(server.server.as_deref(), Some("1.1.1.1"));
    assert_eq!(server.server_port, Some(443));
    assert_eq!(server.path.as_deref(), Some("/dns-query"));
}

#[test]
fn should_set_domain_resolver_for_domain_server() {
    let server = build_dns_server_config(
        "dns_proxy",
        "https://dns.google/dns-query",
        Some("prefer_ipv4"),
        Some("manual"),
        Some("dns_resolver"),
    )
    .expect("域名 DNS 地址应可转换");

    assert_eq!(
        server
            .domain_resolver
            .as_ref()
            .and_then(|v| v.get("server"))
            .and_then(|v| v.as_str()),
        Some("dns_resolver")
    );
    assert_eq!(
        server
            .domain_resolver
            .as_ref()
            .and_then(|v| v.get("strategy"))
            .and_then(|v| v.as_str()),
        Some("prefer_ipv4")
    );
}

#[test]
fn should_omit_direct_detour_for_dns_server() {
    let server = build_dns_server_config(
        "dns_resolver",
        "223.5.5.5",
        Some("prefer_ipv4"),
        Some("direct"),
        None,
    )
    .expect("dns_resolver 构建应成功");

    assert!(server.detour.is_none());
}

#[test]
fn legacy_host_port_forms() {
    assert_eq!(parse_legacy_host_port(" 1.1.1.1 "), Ok(("1.1.1.1".to_string(), None)));
    assert_eq!(parse_legacy_host_port("1.1.1.1:5353"), Ok(("1.1.1.1".to_string(), Some(5353))));
    assert_eq!(parse_legacy_host_port("[::1]:53"), Ok(("::1".to_string(), Some(53))));
    assert_eq!(parse_legacy_host_port("[::1]"), Ok(("::1".to_string(), None)));
    assert_eq!(parse_legacy_host_port("[::1]:+54"), Ok(("::1".to_string(), Some(54))));
    assert_eq!(parse_legacy_host_port("2001:db8::1"), Ok(("2001:db8::1".to_string(), None)));
    assert_eq!(parse_legacy_host_port("dns.example:abc"), Ok(("dns.example:abc".to_string(), None)));
    assert_eq!(parse_legacy_host_port(":53"), Ok((":53".to_string(), None)));
}

#[test]
fn legacy_host_port_errors() {
    assert_eq!(parse_legacy_host_port("   "), Err("DNS 服务器地址为空".to_string()));
    assert_eq!(parse_legacy_host_port("[]:53"), Err("DNS IPv6 地址为空".to_string()));
    assert_eq!(parse_legacy_host_port("[::1]x"), Err("无效的 DNS 地址格式: [::1]x".to_string()));
    assert_eq!(parse_legacy_host_port("[::1]:99999"), Err("无效的 DNS 端口: 99999".to_string()));
    assert_eq!(parse_legacy_host_port("1.1.1.1:70000"), Err("无效的 DNS 端口: 70000".to_string()));
    assert_eq!(parse_legacy_host_port("1.1.1.1:"), Err("无效的 DNS 端口: ".to_string()));
}

#[test]
fn dns_server_local_dhcp_and_udp() {
    let local = build_dns_server_config("l", " LOCAL ", None, Some("proxy"), None).unwrap();
    assert_eq!(local.server_type.as_deref(), Some("local"));
    assert!(local.server.is_none() && local.detour.is_none());

    let dhcp = build_dns_server_config("d", "dhcp://en0", None, None, None).unwrap();
    assert_eq!(dhcp.server_type.as_deref(), Some("dhcp"));
    assert_eq!(dhcp.interface.as_deref(), Some("en0"));
    assert!(dhcp.server_port.is_none());

    let auto = build_dns_server_config("d", "dhcp://Auto", None, None, None).unwrap();
    assert!(auto.interface.is_none());

    let udp = build_dns_server_config("u", "8.8.8.8", None, Some(" proxy "), Some("r")).unwrap();
    assert_eq!(udp.server_type.as_deref(), Some("udp"));
    assert_eq!(udp.server_port, Some(53));
    assert_eq!(udp.detour.as_deref(), Some("proxy"));
    assert!(udp.domain_resolver.is_none());
}

#[test]
fn dns_server_url_forms() {
    let tls = build_dns_server_config("t", "tls://dns.example:853", Some(" "), None, Some("r")).unwrap();
    assert_eq!(tls.server_type.as_deref(), Some("tls"));
    assert_eq!(tls.server_port, Some(853));
    assert!(tls.path.is_none());
    let resolver = tls.domain_resolver.expect("resolver");
    assert_eq!(resolver.get("server").and_then(|v| v.as_str()), Some("r"));
    assert!(resolver.get("strategy").is_none());

    let quic = build_dns_server_config("q", "quic://dns.example", None, None, None).unwrap();
    assert_eq!(quic.server_port, Some(443));

    let h3 = build_dns_server_config("h", "h3://dns.example/custom", None, None, Some("h")).unwrap();
    assert_eq!(h3.path.as_deref(), Some("/custom"));
    // a domain server gets the resolver tag it is given, even its own
    assert_eq!(
        h3.domain_resolver.as_ref().and_then(|v| v.get("server")).and_then(|v| v.as_str()),
        Some("h")
    );
}

#[test]
fn dns_server_errors() {
    assert_eq!(
        build_dns_server_config("x", "  ", None, None, None).err(),
        Some("DNS 服务器地址为空: tag=x".to_string())
    );
    assert_eq!(
        build_dns_server_config("x", "ftp://a.b", None, None, None).err(),
        Some("不支持的 DNS 协议: ftp (tag=x, address=ftp://a.b)".to_string())
    );
    let invalid = build_dns_server_config("x", "https://", None, None, None).err().unwrap();
    assert!(invalid.starts_with("无效的 DNS 地址: https:// ("));
}

#[test]
fn dns_server_from_parsed_url() {
    let no_host = UrlParts { scheme: "udp".to_string(), host: None, port: None, path: String::new() };
    assert_eq!(
        dns_server_from_url("x", "udp:x", Ok(no_host)).err(),
        Some("DNS 地址缺少主机: udp:x".to_string())
    );
    let failed = dns_server_from_url("x", "https://", Err("empty host".to_string())).err();
    assert_eq!(failed, Some("无效的 DNS 地址: https:// (empty host)".to_string()));
    let https = UrlParts {
        scheme: "https".to_string(),
        host: Some("dns.example".to_string()),
        port: Some(8443),
        path: "/".to_string(),
    };
    let server = dns_server_from_url("x", "https://dns.example:8443/", Ok(https)).unwrap();
    assert_eq!(server.server_type, "https");
    assert_eq!(server.server, "dns.example");
    assert_eq!(server.server_port, 8443);
    assert_eq!(server.path.as_deref(), Some("/dns-query"));
}

#[test]
fn ports_and_domains() {
    assert_eq!(default_dns_server_port("https"), 443);
    assert_eq!(default_dns_server_port("tls"), 443);
    assert_eq!(default_dns_server_port("udp"), 53);
    assert!(is_domain("dns.google"));
    assert!(!is_domain("1.1.1.1"));
    assert!(!is_domain("::1"));
}

#[test]
fn split_given_bare_ip() {
    assert_eq!(
        split_legacy_host_port("fe80::1:53", true),
        Ok(("fe80::1:53".to_string(), None))
    );
    // not an address: the last colon separates the port
    assert_eq!(
        split_legacy_host_port("fe80::1:53", false),
        Ok(("fe80::1".to_string(), Some(53)))
    );
    assert_eq!(parse_legacy_host_port("fe80::1:53"), Ok(("fe80::1:53".to_string(), None)));
}

#[test]
fn resolver_given_domain_flag() {
    let server = Some("dns.example".to_string());
    let r = domain_resolver_config(&server, true, Some("ipv4_only"), Some("r")).unwrap();
    assert_eq!(r.get("server").and_then(|v| v.as_str()), Some("r"));
    assert_eq!(r.get("strategy").and_then(|v| v.as_str()), Some("ipv4_only"));
    assert!(domain_resolver_config(&server, false, None, Some("r")).is_none());
    assert!(domain_resolver_config(&server, true, None, Some("")).is_none());
    assert!(domain_resolver_config(&None, true, None, Some("r")).is_none());
}

#[test]
fn domain_server_named_like_its_resolver_still_gets_one() {
    let server = build_dns_server_config(
        "dns_resolver",
        "tls://dns.alidns.com",
        Some("  "),
        None,
        Some("dns_resolver"),
    )
    .expect("tls 地址应可转换");

    let resolver = server.domain_resolver.as_ref().expect("domain_resolver");
    assert_eq!(resolver.get("server").and_then(|v| v.as_str()), Some("dns_resolver"));
    assert!(resolver.get("strategy").is_none());
}
