use pika::common::{
    dns_strategy, node_domain_resolver_strategy, normalize_default_outbound,
    normalize_download_detour, normalize_fake_dns_filter_mode, AppConfig, TAG_AUTO, TAG_DIRECT,
    TAG_MANUAL,
};

fn config(outbound: &str, detour: &str, ipv6: bool, fake: &str) -> AppConfig {
    AppConfig {
        singbox_default_proxy_outbound: outbound.to_string(),
        singbox_download_detour: detour.to_string(),
        prefer_ipv6: ipv6,
        singbox_fake_dns_filter_mode: fake.to_string(),
    }
}

#[test]
fn normalized_settings() {
    let c = config("auto", "manual", true, "global_non_cn");
    assert_eq!(normalize_default_outbound(&c), TAG_AUTO);
    assert_eq!(normalize_download_detour(&c), TAG_MANUAL);
    assert_eq!(dns_strategy(&c), "prefer_ipv6");
    assert_eq!(node_domain_resolver_strategy(&c), "prefer_ipv6");
    assert_eq!(normalize_fake_dns_filter_mode(&c), "global_non_cn");

    let d = config("Auto", "", false, "other");
    assert_eq!(normalize_default_outbound(&d), TAG_MANUAL);
    assert_eq!(normalize_download_detour(&d), TAG_DIRECT);
    assert_eq!(dns_strategy(&d), "ipv4_only");
    assert_eq!(node_domain_resolver_strategy(&d), "ipv4_only");
    assert_eq!(normalize_fake_dns_filter_mode(&d), "proxy_only");
}
