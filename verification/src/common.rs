//! Tags, tuning constants and the settings of the user's configuration
//! that the configuration logic reads.

use vstd::prelude::*;
use crate::text::str_eq;

verus! {

/// Tag of the automatic (url-test) proxy group.
pub const TAG_AUTO: &'static str = "自动选择";
/// Tag of the manual selector group.
pub const TAG_MANUAL: &'static str = "手动切换";
/// Tag of the direct outbound.
pub const TAG_DIRECT: &'static str = "direct";
/// Tag of the blocking outbound.
pub const TAG_BLOCK: &'static str = "block";
pub const TAG_TELEGRAM: &'static str = "Telegram";
pub const TAG_YOUTUBE: &'static str = "YouTube";
pub const TAG_NETFLIX: &'static str = "Netflix";
pub const TAG_OPENAI: &'static str = "OpenAI";
pub const TAG_GOOGLE: &'static str = "Google";

pub const DNS_PROXY: &'static str = "dns_proxy";
pub const DNS_CN: &'static str = "dns_cn";
pub const DNS_RESOLVER: &'static str = "dns_resolver";
pub const DNS_FAKEIP: &'static str = "dns_fakeip";

pub const FAKE_DNS_FILTER_PROXY_ONLY: &'static str = "proxy_only";
pub const FAKE_DNS_FILTER_GLOBAL_NON_CN: &'static str = "global_non_cn";

pub const RS_GEOSITE_CN: &'static str = "geosite-cn";
pub const RS_GEOSITE_GEOLOCATION_NOT_CN: &'static str = "geosite-geolocation-!cn";
pub const RS_GEOSITE_PRIVATE: &'static str = "geosite-private";
pub const RS_GEOSITE_ADS: &'static str = "geosite-category-ads-all";
pub const RS_GEOSITE_TELEGRAM: &'static str = "geosite-telegram";
pub const RS_GEOSITE_YOUTUBE: &'static str = "geosite-youtube";
pub const RS_GEOSITE_NETFLIX: &'static str = "geosite-netflix";
pub const RS_GEOSITE_OPENAI: &'static str = "geosite-openai";
pub const RS_GEOSITE_GOOGLE: &'static str = "geosite-google";
pub const RS_GEOIP_CN: &'static str = "geoip-cn";
pub const RS_GEOIP_PRIVATE: &'static str = "geoip-private";

/// Private and local address ranges, always routed directly.
pub const PRIVATE_IP_CIDRS: [&'static str; 9] = [
    "10.0.0.0/8",
    "100.64.0.0/10",
    "127.0.0.0/8",
    "169.254.0.0/16",
    "172.16.0.0/12",
    "192.168.0.0/16",
    "::1/128",
    "fc00::/7",
    "fe80::/10",
];

/// Telegram's data center and API ranges.  The desktop client dials these
/// addresses directly, without a domain name, so domain rule sets miss
/// them.
pub const TELEGRAM_DC_IP_CIDRS: [&'static str; 12] = [
    "91.108.4.0/22",
    "91.108.8.0/22",
    "91.108.12.0/22",
    "91.108.16.0/22",
    "91.108.20.0/22",
    "91.108.56.0/22",
    "149.154.160.0/20",
    "185.76.151.0/24",
    "2001:67c:4e8::/48",
    "2001:b28:f23c::/48",
    "2001:b28:f23d::/48",
    "2001:b28:f23f::/48",
];

/// Interval between two url tests of the automatic group.
pub const URLTEST_INTERVAL: &'static str = "5m";
/// Latency difference, in milliseconds, below which the group keeps its node.
pub const URLTEST_TOLERANCE: u64 = 400;
/// Idle time after which the automatic group stops testing.
pub const URLTEST_IDLE_TIMEOUT: &'static str = "30m";
/// Largest number of nodes the automatic group tests.
pub const URLTEST_MAX_CANDIDATES: usize = 8;

/// The settings of the user's configuration that the configuration logic
/// reads.
pub struct AppConfig {
    /// `"auto"` selects the automatic group as the default proxy outbound.
    pub singbox_default_proxy_outbound: String,
    /// `"manual"` routes downloads through the manual group.
    pub singbox_download_detour: String,
    /// Prefer IPv6 when resolving.
    pub prefer_ipv6: bool,
    /// Which queries fake DNS answers.
    pub singbox_fake_dns_filter_mode: String,
}

/// Default proxy outbound: the automatic group for `"auto"`, otherwise the
/// manual group.
pub fn normalize_default_outbound(app_config: &AppConfig) -> (r: &'static str)
    ensures
        r@ == if app_config.singbox_default_proxy_outbound@ == "auto"@ {
            TAG_AUTO@
        } else {
            TAG_MANUAL@
        },
{
    if str_eq(app_config.singbox_default_proxy_outbound.as_str(), "auto") {
        TAG_AUTO
    } else {
        TAG_MANUAL
    }
}

/// Download detour: the manual group for `"manual"`, otherwise direct.
pub fn normalize_download_detour(app_config: &AppConfig) -> (r: &'static str)
    ensures
        r@ == if app_config.singbox_download_detour@ == "manual"@ {
            TAG_MANUAL@
        } else {
            TAG_DIRECT@
        },
{
    if str_eq(app_config.singbox_download_detour.as_str(), "manual") {
        TAG_MANUAL
    } else {
        TAG_DIRECT
    }
}

/// DNS resolution strategy.
pub fn dns_strategy(app_config: &AppConfig) -> (r: &'static str)
    ensures
        r@ == if app_config.prefer_ipv6 {
            "prefer_ipv6"@
        } else {
            "ipv4_only"@
        },
{
    if app_config.prefer_ipv6 {
        "prefer_ipv6"
    } else {
        "ipv4_only"
    }
}

/// Strategy for resolving the domain names of proxy nodes.
pub fn node_domain_resolver_strategy(app_config: &AppConfig) -> (r: &'static str)
    ensures
        r@ == if app_config.prefer_ipv6 {
            "prefer_ipv6"@
        } else {
            "ipv4_only"@
        },
{
    if app_config.prefer_ipv6 {
        "prefer_ipv6"
    } else {
        "ipv4_only"
    }
}

/// Fake DNS filter mode: `"global_non_cn"` is kept, anything else becomes
/// `"proxy_only"`.
pub fn normalize_fake_dns_filter_mode(app_config: &AppConfig) -> (r: &'static str)
    ensures
        r@ == if app_config.singbox_fake_dns_filter_mode@ == FAKE_DNS_FILTER_GLOBAL_NON_CN@ {
            FAKE_DNS_FILTER_GLOBAL_NON_CN@
        } else {
            FAKE_DNS_FILTER_PROXY_ONLY@
        },
{
    if str_eq(app_config.singbox_fake_dns_filter_mode.as_str(), FAKE_DNS_FILTER_GLOBAL_NON_CN) {
        FAKE_DNS_FILTER_GLOBAL_NON_CN
    } else {
        FAKE_DNS_FILTER_PROXY_ONLY
    }
}

} // verus!
