//! Conversion of DNS server addresses in the legacy `address` form
//! (`223.5.5.5`, `1.1.1.1:53`, `[::1]:53`, `https://dns.google/dns-query`,
//! `dhcp://en0`, `local`) into sing-box 1.12 DNS server objects.

use vstd::prelude::*;
use crate::common::TAG_DIRECT;
use crate::json::{JsonObject, JsonValue, SpecJson};
use crate::text::{
    all_digits, all_digits_range, append_range, chars_of, contains, contains_range,
    count_char, count_char_range, eq_ignore_ascii_case, eq_ignore_ascii_case_range, find_char,
    find_char_range, parse_u16, parse_u16_range, rfind_char, rfind_char_range, starts_with,
    starts_with_range, string_from, trim, trim_range, trim_start_matches,
    trim_start_matches_range, ascii_lower, lower_char, occurs_at,
};

verus! {

// ---------------------------------------------------------------------------
// Outside results
// ---------------------------------------------------------------------------

/// Whether `s` is an IPv4 or IPv6 address in the syntax that
/// `IpAddr::from_str` accepts.
pub uninterp spec fn ip_addr_parses(s: Seq<char>) -> bool;

/// Wraps `IpAddr::from_str` (`core::net::IpAddr`, which std re-exports
/// as `std::net::IpAddr`): whether `s` is an IP address literal.  The
/// contract only names the answer; the address grammar is not restated.
#[verifier::external_body]
fn parses_as_ip_addr(s: &str) -> (r: bool)
    ensures
        r == ip_addr_parses(s@),
{
    s.parse::<core::net::IpAddr>().is_ok()
}

/// The parts of a URL that DNS server conversion reads.
pub struct UrlParts {
    /// The scheme, without `:`.
    pub scheme: String,
    /// The host, where the URL has one.
    pub host: Option<String>,
    /// The explicit port, where the URL has one other than the scheme's
    /// default.
    pub port: Option<u16>,
    /// The path.
    pub path: String,
}

/// What `Url::parse` makes of `input`, read through `scheme`, `host_str`,
/// `port` and `path`; or the text of its error.
pub uninterp spec fn url_parse(input: Seq<char>) -> Result<
    (Seq<char>, Option<Seq<char>>, Option<u16>, Seq<char>),
    Seq<char>,
>;

pub open spec fn opt_view(o: Option<String>) -> Option<Seq<char>> {
    match o {
        Some(s) => Some(s@),
        None => None,
    }
}

/// A parsed URL in mathematical form.
pub open spec fn url_parts_model(r: Result<UrlParts, String>) -> Result<
    (Seq<char>, Option<Seq<char>>, Option<u16>, Seq<char>),
    Seq<char>,
> {
    match r {
        Ok(p) => Ok((p.scheme@, opt_view(p.host), p.port, p.path@)),
        Err(e) => Err(e@),
    }
}

/// Wraps `Url::parse` from the `url` crate, with the scheme, host, port and
/// path of the parsed URL (`scheme`, `host_str`, `port`, `path`), or the
/// `Display` text of its error.  The contract only names the answer; the
/// URL grammar is not restated.
#[verifier::external_body]
fn parse_url(input: &str) -> (r: Result<UrlParts, String>)
    ensures
        url_parts_model(r) == url_parse(input@),
{
    match url::Url::parse(input) {
        Ok(u) => {
            let host = match u.host_str() {
                Some(h) => Some(h.to_string()),
                None => None,
            };
            Ok(UrlParts { scheme: u.scheme().to_string(), host, port: u.port(), path: u.path().to_string() })
        },
        Err(e) => Err(e.to_string()),
    }
}

// ---------------------------------------------------------------------------
// Legacy host and port
// ---------------------------------------------------------------------------

/// The trimmed input holds more than one `:` and is an IP address: a bare
/// IPv6 address.
pub open spec fn is_bare_ip(input: Seq<char>) -> bool {
    count_char(trim(input), ':') > 1 && ip_addr_parses(trim(input))
}

/// `host[:port]`, `[ipv6]`, `[ipv6]:port` or a bare IPv6 address, read
/// from the trimmed input; or the error message.
pub open spec fn legacy_host_port_spec(input: Seq<char>) -> Result<(Seq<char>, Option<u16>), Seq<char>> {
    legacy_host_port_given(input, is_bare_ip(input))
}

/// `legacy_host_port_spec`, given whether the input is a bare IPv6
/// address.
pub open spec fn legacy_host_port_given(input: Seq<char>, bare_ip: bool) -> Result<
    (Seq<char>, Option<u16>),
    Seq<char>,
> {
    let t = trim(input);
    if t.len() == 0 {
        Err("DNS 服务器地址为空"@)
    } else if t[0] == '[' && find_char(t, ']') is Some {
        let end = find_char(t, ']')->0;
        let host = t.subrange(1, end);
        if host.len() == 0 {
            Err("DNS IPv6 地址为空"@)
        } else if end + 1 < t.len() {
            if t[end + 1] == ':' {
                let p = t.skip(end + 2);
                match parse_u16(p) {
                    Some(n) => Ok((host, Some(n))),
                    None => Err("无效的 DNS 端口: "@ + p),
                }
            } else {
                Err("无效的 DNS 地址格式: "@ + t)
            }
        } else {
            Ok((host, None))
        }
    } else if bare_ip {
        Ok((t, None))
    } else {
        match rfind_char(t, ':') {
            Some(i) => {
                let host = t.take(i);
                let port = t.skip(i + 1);
                if host.len() > 0 && all_digits(port) {
                    match parse_u16(port) {
                        Some(n) => Ok((host, Some(n))),
                        None => Err("无效的 DNS 端口: "@ + port),
                    }
                } else {
                    Ok((t, None))
                }
            },
            None => Ok((t, None)),
        }
    }
}

pub open spec fn host_port_model(r: Result<(String, Option<u16>), String>) -> Result<
    (Seq<char>, Option<u16>),
    Seq<char>,
> {
    match r {
        Ok((h, p)) => Ok((h@, p)),
        Err(e) => Err(e@),
    }
}

/// A literal followed by `v[lo..hi]`.
fn message_with(prefix: &str, v: &Vec<char>, lo: usize, hi: usize) -> (m: String)
    requires
        lo <= hi <= v@.len(),
    ensures
        m@ == prefix@ + v@.subrange(lo as int, hi as int),
{
    let mut m = String::from_str(prefix);
    append_range(&mut m, v, lo, hi);
    m
}

/// Splits a legacy DNS address into host and optional port.
pub fn parse_legacy_host_port(input: &str) -> (r: Result<(String, Option<u16>), String>)
    ensures
        host_port_model(r) == legacy_host_port_spec(input@),
{
    let v = chars_of(input);
    assert(v@.subrange(0, v@.len() as int) =~= v@);
    let (lo, hi) = trim_range(&v, 0, v.len());
    let bare_ip = if count_char_range(&v, lo, hi, ':') > 1 {
        let whole = string_from(&v, lo, hi);
        parses_as_ip_addr(whole.as_str())
    } else {
        false
    };
    split_legacy_host_port(input, bare_ip)
}

/// Splits a legacy DNS address into host and optional port, given whether
/// the trimmed address is a bare IPv6 address (`is_bare_ip`).
pub fn split_legacy_host_port(input: &str, bare_ip: bool) -> (r: Result<(String, Option<u16>), String>)
    ensures
        host_port_model(r) == legacy_host_port_given(input@, bare_ip),
{
    let v = chars_of(input);
    assert(v@.subrange(0, v@.len() as int) =~= v@);
    let (lo, hi) = trim_range(&v, 0, v.len());
    let ghost t = v@.subrange(lo as int, hi as int);
    if lo == hi {
        return Err(String::from_str("DNS 服务器地址为空"));
    }
    assert(t[0] == v@[lo as int]);
    if v[lo] == '[' {
        match find_char_range(&v, lo, hi, ']') {
            Some(end) => {
                let ghost e = end - lo;
                assert(e >= 1) by {
                    crate::text::lemma_find_char(t, ']');
                }
                assert(t.subrange(1, e) =~= v@.subrange(lo + 1, end as int));
                if end == lo + 1 {
                    return Err(String::from_str("DNS IPv6 地址为空"));
                }
                let host = string_from(&v, lo + 1, end);
                if end + 1 < hi {
                    assert(t[e + 1] == v@[end + 1]);
                    if v[end + 1] == ':' {
                        assert(t.skip(e + 2) =~= v@.subrange(end + 2, hi as int));
                        return match parse_u16_range(&v, end + 2, hi) {
                            Some(n) => Ok((host, Some(n))),
                            None => Err(message_with("无效的 DNS 端口: ", &v, end + 2, hi)),
                        };
                    } else {
                        return Err(message_with("无效的 DNS 地址格式: ", &v, lo, hi));
                    }
                } else {
                    return Ok((host, None));
                }
            },
            None => {},
        }
    }
    if bare_ip {
        return Ok((string_from(&v, lo, hi), None));
    }
    match rfind_char_range(&v, lo, hi, ':') {
        Some(i) => {
            let ghost k = i - lo;
            assert(t.take(k) =~= v@.subrange(lo as int, i as int));
            assert(t.skip(k + 1) =~= v@.subrange(i + 1, hi as int));
            if i > lo && all_digits_range(&v, i + 1, hi) {
                let host = string_from(&v, lo, i);
                match parse_u16_range(&v, i + 1, hi) {
                    Some(n) => Ok((host, Some(n))),
                    None => Err(message_with("无效的 DNS 端口: ", &v, i + 1, hi)),
                }
            } else {
                Ok((string_from(&v, lo, hi), None))
            }
        },
        None => Ok((string_from(&v, lo, hi), None)),
    }
}

// ---------------------------------------------------------------------------
// DNS server objects
// ---------------------------------------------------------------------------

/// A DNS server of the sing-box configuration.
pub struct DnsServerConfig {
    pub tag: String,
    pub server_type: Option<String>,
    pub server: Option<String>,
    pub server_port: Option<u16>,
    pub path: Option<String>,
    pub interface: Option<String>,
    pub inet4_range: Option<String>,
    pub inet6_range: Option<String>,
    pub domain_resolver: Option<JsonValue>,
    pub detour: Option<String>,
}

/// A DNS server in mathematical form.
pub struct SpecDnsServer {
    pub tag: Seq<char>,
    pub server_type: Option<Seq<char>>,
    pub server: Option<Seq<char>>,
    pub server_port: Option<u16>,
    pub path: Option<Seq<char>>,
    pub interface: Option<Seq<char>>,
    pub inet4_range: Option<Seq<char>>,
    pub inet6_range: Option<Seq<char>>,
    pub domain_resolver: Option<SpecJson>,
    pub detour: Option<Seq<char>>,
}

impl DnsServerConfig {
    pub open spec fn model(&self) -> SpecDnsServer {
        SpecDnsServer {
            tag: self.tag@,
            server_type: opt_view(self.server_type),
            server: opt_view(self.server),
            server_port: self.server_port,
            path: opt_view(self.path),
            interface: opt_view(self.interface),
            inet4_range: opt_view(self.inet4_range),
            inet6_range: opt_view(self.inet6_range),
            domain_resolver: match self.domain_resolver {
                Some(j) => Some(j.model()),
                None => None,
            },
            detour: opt_view(self.detour),
        }
    }
}

pub open spec fn dns_result_model(r: Result<DnsServerConfig, String>) -> Result<SpecDnsServer, Seq<char>> {
    match r {
        Ok(c) => Ok(c.model()),
        Err(e) => Err(e@),
    }
}

/// Default port of a DNS transport: 443 for the encrypted ones, 53
/// otherwise.
pub open spec fn default_port_spec(server_type: Seq<char>) -> u16 {
    if server_type == "https"@ || server_type == "h3"@ || server_type == "tls"@ || server_type
        == "quic"@ {
        443
    } else {
        53
    }
}

/// Default port of a DNS transport.
pub fn default_dns_server_port(server_type: &str) -> (port: u16)
    ensures
        port == default_port_spec(server_type@),
{
    if crate::text::str_eq(server_type, "https") || crate::text::str_eq(server_type, "h3")
        || crate::text::str_eq(server_type, "tls") || crate::text::str_eq(server_type, "quic") {
        443
    } else {
        53
    }
}

/// A URL scheme that names a supported DNS transport.
pub open spec fn supported_scheme(scheme: Seq<char>) -> bool {
    ||| scheme == "https"@
    ||| scheme == "h3"@
    ||| scheme == "quic"@
    ||| scheme == "tls"@
    ||| scheme == "tcp"@
    ||| scheme == "udp"@
}

/// The detour of a DNS server: trimmed, and dropped where empty or
/// `direct` (sing-box dials DNS servers directly by default).
pub open spec fn detour_spec(detour: Option<Seq<char>>) -> Option<Seq<char>> {
    match detour {
        Some(d) => {
            let t = trim(d);
            if t.len() == 0 || eq_ignore_ascii_case(t, TAG_DIRECT@) {
                None
            } else {
                Some(t)
            }
        },
        None => None,
    }
}

/// Transport, server, port, path and interface of a server given by URL;
/// or the error message.
pub open spec fn url_server_spec(
    tag: Seq<char>,
    raw: Seq<char>,
    parsed: Result<(Seq<char>, Option<Seq<char>>, Option<u16>, Seq<char>), Seq<char>>,
) -> Result<
    (Seq<char>, Option<Seq<char>>, Option<u16>, Option<Seq<char>>, Option<Seq<char>>),
    Seq<char>,
> {
    match parsed {
        Err(e) => Err("无效的 DNS 地址: "@ + raw + " ("@ + e + ")"@),
        Ok((scheme, host, port, path)) => {
            if !supported_scheme(scheme) {
                Err(
                    "不支持的 DNS 协议: "@ + scheme + " (tag="@ + tag + ", address="@ + raw
                        + ")"@,
                )
            } else {
                match host {
                    None => Err("DNS 地址缺少主机: "@ + raw),
                    Some(h) => Ok(
                        (
                            scheme,
                            Some(h),
                            Some(
                                match port {
                                    Some(p) => p,
                                    None => default_port_spec(scheme),
                                },
                            ),
                            if scheme == "https"@ || scheme == "h3"@ {
                                Some(
                                    if path.len() == 0 || path == "/"@ {
                                        "/dns-query"@
                                    } else {
                                        path
                                    },
                                )
                            } else {
                                None
                            },
                            None,
                        ),
                    ),
                }
            }
        },
    }
}

/// Transport, server, port, path and interface of a server given in any
/// non-`local` form; or the error message.
pub open spec fn server_parts_spec(tag: Seq<char>, raw: Seq<char>) -> Result<
    (Seq<char>, Option<Seq<char>>, Option<u16>, Option<Seq<char>>, Option<Seq<char>>),
    Seq<char>,
> {
    if contains(raw, "://"@) {
        if starts_with(raw, "dhcp://"@) {
            let value = trim(trim_start_matches(raw, "dhcp://"@));
            Ok(
                (
                    "dhcp"@,
                    None,
                    None,
                    None,
                    if value.len() > 0 && !eq_ignore_ascii_case(value, "auto"@) {
                        Some(value)
                    } else {
                        None
                    },
                ),
            )
        } else {
            url_server_spec(tag, raw, url_parse(raw))
        }
    } else {
        match legacy_host_port_spec(raw) {
            Ok((h, p)) => Ok(
                (
                    "udp"@,
                    Some(h),
                    Some(
                        match p {
                            Some(n) => n,
                            None => 53,
                        },
                    ),
                    None,
                    None,
                ),
            ),
            Err(e) => Err(e),
        }
    }
}

/// The resolver for a server given by domain name: the resolver tag, with
/// the strategy where one is given, unless the server is an IP address or
/// the resolver tag is empty.
pub open spec fn domain_resolver_spec(
    server: Option<Seq<char>>,
    strategy: Option<Seq<char>>,
    resolver: Option<Seq<char>>,
) -> Option<SpecJson> {
    domain_resolver_given(
        server,
        match server {
            Some(h) => !ip_addr_parses(h),
            None => false,
        },
        strategy,
        resolver,
    )
}

/// `domain_resolver_spec`, given whether the server is a domain name.
pub open spec fn domain_resolver_given(
    server: Option<Seq<char>>,
    server_is_domain: bool,
    strategy: Option<Seq<char>>,
    resolver: Option<Seq<char>>,
) -> Option<SpecJson> {
    match (server, resolver) {
        (Some(h), Some(r)) => if r.len() > 0 && server_is_domain {
            Some(
                match strategy {
                    Some(st) => if trim(st).len() > 0 {
                        SpecJson::Object(
                            seq![("server"@, SpecJson::Str(r)), ("strategy"@, SpecJson::Str(st))],
                        )
                    } else {
                        SpecJson::Object(seq![("server"@, SpecJson::Str(r))])
                    },
                    None => SpecJson::Object(seq![("server"@, SpecJson::Str(r))]),
                },
            )
        } else {
            None
        },
        _ => None,
    }
}

/// What `build_dns_server_config` returns.
pub open spec fn dns_server_spec(
    tag: Seq<char>,
    address: Seq<char>,
    strategy: Option<Seq<char>>,
    detour: Option<Seq<char>>,
    resolver: Option<Seq<char>>,
) -> Result<SpecDnsServer, Seq<char>> {
    let raw = trim(address);
    if raw.len() == 0 {
        Err("DNS 服务器地址为空: tag="@ + tag)
    } else if eq_ignore_ascii_case(raw, "local"@) {
        Ok(
            SpecDnsServer {
                tag,
                server_type: Some("local"@),
                server: None,
                server_port: None,
                path: None,
                interface: None,
                inet4_range: None,
                inet6_range: None,
                domain_resolver: None,
                detour: None,
            },
        )
    } else {
        match server_parts_spec(tag, raw) {
            Err(e) => Err(e),
            Ok((ty, server, port, path, iface)) => Ok(
                SpecDnsServer {
                    tag,
                    server_type: Some(ty),
                    server,
                    server_port: port,
                    path,
                    interface: iface,
                    inet4_range: None,
                    inet6_range: None,
                    domain_resolver: domain_resolver_spec(server, strategy, resolver),
                    detour: detour_spec(detour),
                },
            ),
        }
    }
}

/// A server given by URL, from its parsed form.
pub struct UrlServer {
    pub server_type: String,
    pub server: String,
    pub server_port: u16,
    pub path: Option<String>,
}

pub open spec fn url_server_model(r: Result<UrlServer, String>) -> Result<
    (Seq<char>, Option<Seq<char>>, Option<u16>, Option<Seq<char>>, Option<Seq<char>>),
    Seq<char>,
> {
    match r {
        Ok(u) => Ok((u.server_type@, Some(u.server@), Some(u.server_port), opt_view(u.path), None)),
        Err(e) => Err(e@),
    }
}

fn is_str(s: &str, lit: &str) -> (r: bool)
    ensures
        r == (s@ == lit@),
{
    crate::text::str_eq(s, lit)
}

/// The DNS transport, server, port and path of a server given by the URL
/// `raw`, from what `Url::parse` made of it; or the error message.
pub fn dns_server_from_url(tag: &str, raw: &str, parsed: Result<UrlParts, String>) -> (r: Result<UrlServer, String>)
    ensures
        url_server_model(r) == url_server_spec(tag@, raw@, url_parts_model(parsed)),
{
    match parsed {
        Err(e) => {
            let mut m = String::from_str("无效的 DNS 地址: ");
            m.append(raw);
            m.append(" (");
            m.append(e.as_str());
            m.append(")");
            Err(m)
        },
        Ok(parts) => {
            let scheme = parts.scheme.as_str();
            if !(is_str(scheme, "https") || is_str(scheme, "h3") || is_str(scheme, "quic") || is_str(
                scheme,
                "tls",
            ) || is_str(scheme, "tcp") || is_str(scheme, "udp")) {
                let mut m = String::from_str("不支持的 DNS 协议: ");
                m.append(scheme);
                m.append(" (tag=");
                m.append(tag);
                m.append(", address=");
                m.append(raw);
                m.append(")");
                return Err(m);
            }
            match parts.host {
                None => {
                    let mut m = String::from_str("DNS 地址缺少主机: ");
                    m.append(raw);
                    Err(m)
                },
                Some(h) => {
                    let port = match parts.port {
                        Some(p) => p,
                        None => default_dns_server_port(scheme),
                    };
                    let path = if is_str(scheme, "https") || is_str(scheme, "h3") {
                        let p = parts.path.as_str();
                        if p.is_empty() || is_str(p, "/") {
                            Some(String::from_str("/dns-query"))
                        } else {
                            Some(String::from_str(p))
                        }
                    } else {
                        None
                    };
                    Ok(UrlServer { server_type: String::from_str(scheme), server: h, server_port: port, path })
                },
            }
        },
    }
}

/// Whether a server address is a domain name rather than an IP address.
pub fn is_domain(value: &str) -> (r: bool)
    ensures
        r == !ip_addr_parses(value@),
{
    !parses_as_ip_addr(value)
}

pub open spec fn opt_str_view(o: Option<&str>) -> Option<Seq<char>> {
    match o {
        Some(s) => Some(s@),
        None => None,
    }
}

pub open spec fn opt_json_model(o: Option<JsonValue>) -> Option<SpecJson> {
    match o {
        Some(j) => Some(j.model()),
        None => None,
    }
}

fn push_str_entry(entries: &mut Vec<(String, JsonValue)>, key: &str, value: &str)
    ensures
        crate::json::entries_model(final(entries)@) == crate::json::entries_model(old(entries)@).push(
            (key@, SpecJson::Str(value@)),
        ),
{
    let ghost before = entries@;
    let k = String::from_str(key);
    let val = JsonValue::String(String::from_str(value));
    assert(val.model() == SpecJson::Str(value@));
    entries.push((k, val));
    assert(entries@.drop_last() =~= before);
}

/// The resolver object of a DNS server, given whether the server is a
/// domain name.
pub fn domain_resolver_config(
    server: &Option<String>,
    server_is_domain: bool,
    strategy: Option<&str>,
    resolver: Option<&str>,
) -> (r: Option<JsonValue>)
    ensures
        opt_json_model(r) == domain_resolver_given(
            opt_view(*server),
            server_is_domain,
            opt_str_view(strategy),
            opt_str_view(resolver),
        ),
{
    match (server, resolver) {
        (Some(host), Some(res)) => {
            if !res.is_empty() && server_is_domain {
                let mut entries: Vec<(String, JsonValue)> = Vec::new();
                push_str_entry(&mut entries, "server", res);
                assert(crate::json::entries_model(entries@) =~= seq![("server"@, SpecJson::Str(res@))]);
                match strategy {
                    Some(st) => {
                        let sv = chars_of(st);
                        let (a, b) = trim_range(&sv, 0, sv.len());
                        assert(sv@.subrange(0, sv@.len() as int) =~= sv@);
                        if a < b {
                            push_str_entry(&mut entries, "strategy", st);
                            assert(crate::json::entries_model(entries@) =~= seq![
                                ("server"@, SpecJson::Str(res@)),
                                ("strategy"@, SpecJson::Str(st@)),
                            ]);
                        }
                    },
                    None => {},
                }
                Some(JsonValue::Object(JsonObject { entries }))
            } else {
                None
            }
        },
        _ => None,
    }
}

/// Converts a DNS server given in the legacy `address` form into the
/// sing-box 1.12 form: `local`; `dhcp://` with an optional interface;
/// `https`, `h3`, `quic`, `tls`, `tcp` or `udp` URLs; or `host[:port]`
/// over UDP.  A server given by domain name resolves through
/// `resolver_tag` (with `strategy` where one is given); an explicit
/// `direct` detour is dropped.
pub fn build_dns_server_config(
    tag: &str,
    address: &str,
    strategy: Option<&str>,
    detour: Option<&str>,
    resolver_tag: Option<&str>,
) -> (r: Result<DnsServerConfig, String>)
    ensures
        dns_result_model(r) == dns_server_spec(
            tag@,
            address@,
            opt_str_view(strategy),
            opt_str_view(detour),
            opt_str_view(resolver_tag),
        ),
{
    let v = chars_of(address);
    assert(v@.subrange(0, v@.len() as int) =~= v@);
    let (lo, hi) = trim_range(&v, 0, v.len());
    if lo == hi {
        let mut m = String::from_str("DNS 服务器地址为空: tag=");
        m.append(tag);
        return Err(m);
    }
    let normalized_detour = match detour {
        Some(d) => {
            let dv = chars_of(d);
            assert(dv@.subrange(0, dv@.len() as int) =~= dv@);
            let (a, b) = trim_range(&dv, 0, dv.len());
            if a == b || eq_ignore_ascii_case_range(&dv, a, b, &chars_of(TAG_DIRECT)) {
                None
            } else {
                Some(string_from(&dv, a, b))
            }
        },
        None => None,
    };
    assert(opt_view(normalized_detour) == detour_spec(opt_str_view(detour)));
    if eq_ignore_ascii_case_range(&v, lo, hi, &chars_of("local")) {
        return Ok(
            DnsServerConfig {
                tag: String::from_str(tag),
                server_type: Some(String::from_str("local")),
                server: None,
                server_port: None,
                path: None,
                interface: None,
                inet4_range: None,
                inet6_range: None,
                domain_resolver: None,
                detour: None,
            },
        );
    }
    let raw = string_from(&v, lo, hi);
    let server_type: String;
    let server: Option<String>;
    let server_port: Option<u16>;
    let path: Option<String>;
    let interface: Option<String>;
    if contains_range(&v, lo, hi, &chars_of("://")) {
        let prefix = chars_of("dhcp://");
        if starts_with_range(&v, lo, hi, &prefix) {
            proof {
                reveal_strlit("dhcp://");
            }
            let a = trim_start_matches_range(&v, lo, hi, &prefix);
            let (c, d) = trim_range(&v, a, hi);
            server_type = String::from_str("dhcp");
            server = None;
            server_port = None;
            path = None;
            interface = if c < d && !eq_ignore_ascii_case_range(&v, c, d, &chars_of("auto")) {
                Some(string_from(&v, c, d))
            } else {
                None
            };
        } else {
            let parsed = parse_url(raw.as_str());
            match dns_server_from_url(tag, raw.as_str(), parsed) {
                Ok(u) => {
                    server_type = u.server_type;
                    server = Some(u.server);
                    server_port = Some(u.server_port);
                    path = u.path;
                    interface = None;
                },
                Err(e) => {
                    return Err(e);
                },
            }
        }
    } else {
        match parse_legacy_host_port(raw.as_str()) {
            Ok((h, p)) => {
                server_type = String::from_str("udp");
                server = Some(h);
                server_port = Some(
                    match p {
                        Some(n) => n,
                        None => 53,
                    },
                );
                path = None;
                interface = None;
            },
            Err(e) => {
                return Err(e);
            },
        }
    }
    let server_is_domain = match &server {
        Some(h) => is_domain(h.as_str()),
        None => false,
    };
    let resolver = domain_resolver_config(&server, server_is_domain, strategy, resolver_tag);
    Ok(
        DnsServerConfig {
            tag: String::from_str(tag),
            server_type: Some(server_type),
            server,
            server_port,
            path,
            interface,
            inet4_range: None,
            inet6_range: None,
            domain_resolver: resolver,
            detour: normalized_detour,
        },
    )
}

// ---------------------------------------------------------------------------
// Laws of DNS server conversion
// ---------------------------------------------------------------------------

/// A converted server never sets an explicit `direct` detour (sing-box
/// rejects a detour to an empty direct outbound), nor an empty one.
pub proof fn law_dns_no_direct_detour(
    tag: Seq<char>,
    address: Seq<char>,
    strategy: Option<Seq<char>>,
    detour: Option<Seq<char>>,
    resolver: Option<Seq<char>>,
)
    ensures
        dns_server_spec(tag, address, strategy, detour, resolver) matches Ok(srv) ==> (
        srv.detour matches Some(d) ==> d.len() > 0 && !eq_ignore_ascii_case(d, TAG_DIRECT@)),
{
}

/// A converted server always has a type, one of the transports that the
/// conversion knows: `local`, `dhcp`, `udp`, `tcp`, `tls`, `https`, `h3`,
/// `quic`.
pub proof fn law_dns_known_type(
    tag: Seq<char>,
    address: Seq<char>,
    strategy: Option<Seq<char>>,
    detour: Option<Seq<char>>,
    resolver: Option<Seq<char>>,
)
    ensures
        dns_server_spec(tag, address, strategy, detour, resolver) matches Ok(srv) ==> (
        srv.server_type matches Some(t) && (t == "local"@ || t == "dhcp"@ || t == "udp"@
            || supported_scheme(t))),
{
}

/// A converted server that names a host also has a port.
pub proof fn law_dns_host_has_port(
    tag: Seq<char>,
    address: Seq<char>,
    strategy: Option<Seq<char>>,
    detour: Option<Seq<char>>,
    resolver: Option<Seq<char>>,
)
    ensures
        dns_server_spec(tag, address, strategy, detour, resolver) matches Ok(srv) ==> (
        srv.server is Some ==> srv.server_port is Some),
{
}

/// A server given by domain name resolves through the resolver tag
/// whenever that tag is non-empty, with the strategy where a non-blank one
/// is given; a server given by IP address has no resolver.
pub proof fn law_dns_domain_resolver(
    tag: Seq<char>,
    address: Seq<char>,
    strategy: Option<Seq<char>>,
    detour: Option<Seq<char>>,
    resolver: Option<Seq<char>>,
)
    ensures
        dns_server_spec(tag, address, strategy, detour, resolver) matches Ok(srv) ==> (
        srv.domain_resolver is Some <==> (srv.server matches Some(h) && resolver matches Some(r)
            && r.len() > 0 && !ip_addr_parses(h))),
        dns_server_spec(tag, address, strategy, detour, resolver) matches Ok(srv) ==> (
        srv.domain_resolver matches Some(o) ==> o == SpecJson::Object(
            match strategy {
                Some(st) => if trim(st).len() > 0 {
                    seq![("server"@, SpecJson::Str(resolver->0)), ("strategy"@, SpecJson::Str(st))]
                } else {
                    seq![("server"@, SpecJson::Str(resolver->0))]
                },
                None => seq![("server"@, SpecJson::Str(resolver->0))],
            },
        )),
{
}

/// A blank address is refused, naming the server's tag.
pub proof fn law_dns_blank_address(
    tag: Seq<char>,
    address: Seq<char>,
    strategy: Option<Seq<char>>,
    detour: Option<Seq<char>>,
    resolver: Option<Seq<char>>,
)
    requires
        trim(address).len() == 0,
    ensures
        dns_server_spec(tag, address, strategy, detour, resolver) == Err::<SpecDnsServer, Seq<char>>(
            "DNS 服务器地址为空: tag="@ + tag,
        ),
{
}

/// A server given by URL without an explicit port gets its transport's
/// standard port: 443 for `https`, `h3`, `tls` and `quic`, 53 for `tcp`
/// and `udp`; the host is kept.
pub proof fn law_url_server_default_port(
    tag: Seq<char>,
    raw: Seq<char>,
    scheme: Seq<char>,
    host: Seq<char>,
    path: Seq<char>,
)
    ensures
        (scheme == "https"@ || scheme == "h3"@ || scheme == "tls"@ || scheme == "quic"@) ==> (
        url_server_spec(tag, raw, Ok((scheme, Some(host), None, path))) matches Ok(x) && x.0
            == scheme && x.1 == Some(host) && x.2 == Some(443u16)),
        (scheme == "tcp"@ || scheme == "udp"@) ==> (url_server_spec(
            tag,
            raw,
            Ok((scheme, Some(host), None, path)),
        ) matches Ok(x) && x.0 == scheme && x.1 == Some(host) && x.2 == Some(53u16)),
{
    reveal_strlit("https");
    reveal_strlit("h3");
    reveal_strlit("tls");
    reveal_strlit("quic");
    reveal_strlit("tcp");
    reveal_strlit("udp");
    if scheme == "tcp"@ || scheme == "udp"@ {
        assert(scheme.len() == 3);
        assert(scheme != "https"@ && scheme != "h3"@ && scheme != "quic"@);
        assert(scheme != "tls"@) by {
            if scheme == "tcp"@ {
                assert(scheme[1] != "tls"@[1]);
            } else {
                assert(scheme[0] != "tls"@[0]);
            }
        }
    }
}

/// A DNS address given as a URL of an encrypted transport (`https`, `h3`,
/// `tls`, `quic`) without an explicit port becomes a server of that
/// transport on the URL's host, port 443.
pub proof fn law_dns_encrypted_default_port(
    tag: Seq<char>,
    address: Seq<char>,
    strategy: Option<Seq<char>>,
    detour: Option<Seq<char>>,
    resolver: Option<Seq<char>>,
    scheme: Seq<char>,
    host: Seq<char>,
    path: Seq<char>,
)
    requires
        contains(trim(address), "://"@),
        !starts_with(trim(address), "dhcp://"@),
        url_parse(trim(address)) == Ok::<_, Seq<char>>((scheme, Some(host), None::<u16>, path)),
        scheme == "https"@ || scheme == "h3"@ || scheme == "tls"@ || scheme == "quic"@,
    ensures
        dns_server_spec(tag, address, strategy, detour, resolver) matches Ok(srv) && srv.server_type
            == Some(scheme) && srv.server == Some(host) && srv.server_port == Some(443u16),
{
    let raw = trim(address);
    reveal_strlit("://");
    reveal_strlit("local");
    let i = choose|i: int| occurs_at(raw, "://"@, i);
    assert(raw.subrange(i, i + 3)[0] == raw[i]);
    assert(raw[i] == ':');
    if eq_ignore_ascii_case(raw, "local"@) {
        assert(ascii_lower(raw)[i] == lower_char(raw[i]));
        assert(ascii_lower(raw)[i] == ':');
        let l = ascii_lower("local"@);
        assert(l.len() == 5);
        assert(l[i] == lower_char("local"@[i]));
    }
}

/// A DNS-over-HTTP server (`https` or `h3`) keeps the URL's path, or gets
/// `/dns-query` where the path is empty or `/`; the other transports carry
/// no path.
pub proof fn law_url_server_path(
    tag: Seq<char>,
    raw: Seq<char>,
    scheme: Seq<char>,
    host: Seq<char>,
    port: Option<u16>,
    path: Seq<char>,
)
    ensures
        (scheme == "https"@ || scheme == "h3"@) ==> (url_server_spec(
            tag,
            raw,
            Ok((scheme, Some(host), port, path)),
        ) matches Ok(x) && x.3 == Some(
            if path.len() == 0 || path == seq!['/'] {
                "/dns-query"@
            } else {
                path
            },
        )),
        (scheme == "tls"@ || scheme == "quic"@ || scheme == "tcp"@ || scheme == "udp"@) ==> (
        url_server_spec(tag, raw, Ok((scheme, Some(host), port, path))) matches Ok(x) && x.3
            == None::<Seq<char>>),
{
    reveal_strlit("/");
    assert("/"@ =~= seq!['/']);
    reveal_strlit("https");
    reveal_strlit("h3");
    reveal_strlit("tls");
    reveal_strlit("quic");
    reveal_strlit("tcp");
    reveal_strlit("udp");
    if scheme == "tls"@ || scheme == "quic"@ || scheme == "tcp"@ || scheme == "udp"@ {
        assert(scheme != "https"@) by {
            if scheme.len() == 5 {
                assert(scheme[0] != 'h');
            }
        }
        assert(scheme != "h3"@) by {
            if scheme.len() == 2 {
                assert(scheme[0] != 'h');
            }
        }
    }
}

/// A URL whose scheme is none of `https`, `h3`, `quic`, `tls`, `tcp` and
/// `udp` is refused, naming the scheme.
pub proof fn law_url_server_unsupported_scheme(
    tag: Seq<char>,
    raw: Seq<char>,
    scheme: Seq<char>,
    host: Option<Seq<char>>,
    port: Option<u16>,
    path: Seq<char>,
)
    requires
        scheme != "https"@ && scheme != "h3"@ && scheme != "quic"@ && scheme != "tls"@ && scheme
            != "tcp"@ && scheme != "udp"@,
    ensures
        url_server_spec(tag, raw, Ok((scheme, host, port, path))) == Err::<
            (Seq<char>, Option<Seq<char>>, Option<u16>, Option<Seq<char>>, Option<Seq<char>>),
            Seq<char>,
        >("不支持的 DNS 协议: "@ + scheme + " (tag="@ + tag + ", address="@ + raw + ")"@),
{
}

/// A plain `host[:port]` address becomes a UDP server on that host, port 53
/// where none is given.
pub proof fn law_dns_plain_address_is_udp(
    tag: Seq<char>,
    address: Seq<char>,
    strategy: Option<Seq<char>>,
    detour: Option<Seq<char>>,
    resolver: Option<Seq<char>>,
    host: Seq<char>,
    port: Option<u16>,
)
    requires
        !contains(trim(address), "://"@),
        !eq_ignore_ascii_case(trim(address), "local"@),
        legacy_host_port_spec(trim(address)) == Ok::<_, Seq<char>>((host, port)),
    ensures
        dns_server_spec(tag, address, strategy, detour, resolver) matches Ok(srv) && srv.server_type
            == Some("udp"@) && srv.server == Some(host) && srv.server_port == Some(
            match port {
                Some(p) => p,
                None => 53u16,
            },
        ),
{
    if trim(address).len() == 0 {
        assert(legacy_host_port_spec(trim(address)) is Err);
    }
}

/// An explicit `direct` detour, in any ASCII case and with surrounding
/// whitespace, is dropped.
pub proof fn law_dns_direct_detour_dropped(
    tag: Seq<char>,
    address: Seq<char>,
    strategy: Option<Seq<char>>,
    d: Seq<char>,
    resolver: Option<Seq<char>>,
)
    requires
        ascii_lower(trim(d)) == "direct"@,
    ensures
        dns_server_spec(tag, address, strategy, Some(d), resolver) matches Ok(srv) ==> srv.detour
            is None,
{
    reveal_strlit("direct");
    assert(ascii_lower("direct"@) =~= "direct"@);
}

} // verus!
