//! What the system proxy settings are made of: the bypass list, the proxy
//! addresses, and which macOS network services receive them.

use vstd::prelude::*;
use crate::sorting::{
    lemma_filter_members, lemma_insert_sorted_at, lemma_sort_by_members, lemma_sort_by_sorted, lemma_sort_by_step,
    sort_by, sorted_by, strict_order,
};
use crate::text::{
    ascii_lower, chars_of, contains, contains_range, decimal, decimal_string,
    eq_ignore_ascii_case, eq_ignore_ascii_case_range, find, find_char, find_char_range,
    find_range, join, join_strings, lemma_lex_irreflexive, lemma_lex_transitive, lex_lt,
    lemma_lex_total, lemma_split_no_sep, lemma_trim_chars, lex_lt_vec, lines, lower_vec, next_line, replace_char, replace_char_str, split_any,
    starts_with, starts_with_range, str_eq, string_from, string_views, trim, trim_end_char,
    trim_end_char_range, trim_range, trim_start_char, trim_start_char_range, is_ws,
    trim_start, trim_end, lemma_trim_start_ws, lemma_trim_end_prefix,
};

verus! {

/// Default list of hosts that bypass the system proxy.
pub const DEFAULT_BYPASS_LIST: &'static str = "localhost;127.*;10.*;172.16.*;172.17.*;172.18.*;172.19.*;172.20.*;172.21.*;172.22.*;172.23.*;172.24.*;172.25.*;172.26.*;172.27.*;172.28.*;172.29.*;172.30.*;172.31.*;192.168.*";

// ---------------------------------------------------------------------------
// Bypass list
// ---------------------------------------------------------------------------

/// A separator of bypass entries: `;`, `,` or a newline.
pub open spec fn is_bypass_sep(c: char) -> bool {
    c == ';' || c == ',' || c == '\n'
}

pub open spec fn bypass_sep() -> spec_fn(char) -> bool {
    |c: char| is_bypass_sep(c)
}

/// The pieces trimmed, with empty ones dropped.
pub open spec fn clean_pieces(ps: Seq<Seq<char>>) -> Seq<Seq<char>>
    decreases ps.len(),
{
    if ps.len() == 0 {
        seq![]
    } else {
        let rest = clean_pieces(ps.drop_last());
        if trim(ps.last()).len() > 0 {
            rest.push(trim(ps.last()))
        } else {
            rest
        }
    }
}

/// The bypass entries: the given list (the default one where none or a
/// blank one is given) split at `;`, `,` and newlines, trimmed, empty
/// entries dropped.
pub open spec fn bypass_entries_spec(raw: Option<Seq<char>>) -> Seq<Seq<char>> {
    let source = match raw {
        Some(r) => if trim(r).len() > 0 {
            r
        } else {
            DEFAULT_BYPASS_LIST@
        },
        None => DEFAULT_BYPASS_LIST@,
    };
    clean_pieces(split_any(source, bypass_sep()))
}

pub open spec fn opt_str_view(o: Option<&str>) -> Option<Seq<char>> {
    match o {
        Some(s) => Some(s@),
        None => None,
    }
}

proof fn lemma_clean_push(ps: Seq<Seq<char>>, p: Seq<char>)
    ensures
        clean_pieces(ps.push(p)) == if trim(p).len() > 0 {
            clean_pieces(ps).push(trim(p))
        } else {
            clean_pieces(ps)
        },
{
    assert(ps.push(p).drop_last() =~= ps);
}

/// Splits a bypass list into its entries.
pub fn parse_bypass_entries(raw: Option<&str>) -> (r: Vec<String>)
    ensures
        string_views(r@) == bypass_entries_spec(opt_str_view(raw)),
{
    let source: &str = match raw {
        Some(value) => {
            let vv = chars_of(value);
            assert(vv@.subrange(0, vv@.len() as int) =~= vv@);
            let (a, b) = trim_range(&vv, 0, vv.len());
            if a < b {
                value
            } else {
                DEFAULT_BYPASS_LIST
            }
        },
        None => DEFAULT_BYPASS_LIST,
    };
    let v = chars_of(source);
    let ghost s = v@;
    let mut out: Vec<String> = Vec::new();
    let ghost mut done: Seq<Seq<char>> = seq![];
    let mut start: usize = 0;
    let n = v.len();
    let mut i: usize = 0;
    assert(s.take(0) =~= Seq::<char>::empty());
    assert(done.push(s.subrange(0, 0)) =~= seq![Seq::<char>::empty()]);
    while i < n
        invariant
            n == v@.len(),
            s == v@,
            start <= i <= n,
            split_any(s.take(i as int), bypass_sep()) == done.push(s.subrange(start as int, i as int)),
            string_views(out@) == clean_pieces(done),
        decreases n - i,
    {
        assert(s.take(i + 1).drop_last() =~= s.take(i as int));
        assert(s.take(i + 1).last() == s[i as int]);
        let c = v[i];
        if c == ';' || c == ',' || c == '\n' {
            let (a, b) = trim_range(&v, start, i);
            proof {
                lemma_clean_push(done, s.subrange(start as int, i as int));
            }
            if a < b {
                let piece = string_from(&v, a, b);
                let ghost before = out@;
                out.push(piece);
                assert(string_views(out@) =~= string_views(before).push(piece@));
            }
            proof {
                done = done.push(s.subrange(start as int, i as int));
                assert(s.subrange(i + 1, i + 1) =~= Seq::<char>::empty());
            }
            start = i + 1;
        } else {
            assert(s.subrange(start as int, i + 1) =~= s.subrange(start as int, i as int).push(c));
            assert(done.push(s.subrange(start as int, i as int)).update(
                done.len() as int,
                s.subrange(start as int, i + 1),
            ) =~= done.push(s.subrange(start as int, i + 1)));
        }
        i += 1;
    }
    assert(s.take(n as int) =~= s);
    let (a, b) = trim_range(&v, start, n);
    proof {
        lemma_clean_push(done, s.subrange(start as int, n as int));
    }
    if a < b {
        let piece = string_from(&v, a, b);
        let ghost before = out@;
        out.push(piece);
        assert(string_views(out@) =~= string_views(before).push(piece@));
    }
    out
}

/// The bypass list joined by `sep`; the default list, with its `;`
/// separators replaced by `sep`, where no entry is left.
pub open spec fn bypass_list_spec(raw: Option<Seq<char>>, sep: char) -> Seq<char> {
    let entries = bypass_entries_spec(raw);
    if entries.len() == 0 {
        replace_char(DEFAULT_BYPASS_LIST@, ';', sep)
    } else {
        join(entries, seq![sep])
    }
}

fn bypass_list(bypass: Option<&str>, sep: char, sep_str: &str) -> (r: String)
    requires
        sep_str@ == seq![sep],
    ensures
        r@ == bypass_list_spec(opt_str_view(bypass), sep),
{
    let entries = parse_bypass_entries(bypass);
    if entries.len() == 0 {
        replace_char_str(DEFAULT_BYPASS_LIST, ';', sep)
    } else {
        join_strings(&entries, sep_str)
    }
}

/// The proxy override list of the Windows registry: the bypass entries
/// joined by `;`.
pub fn windows_proxy_override(bypass: Option<&str>) -> (r: String)
    ensures
        r@ == bypass_list_spec(opt_str_view(bypass), ';'),
{
    proof {
        reveal_strlit(";");
        assert(";"@ =~= seq![';']);
    }
    bypass_list(bypass, ';', ";")
}

/// The `no_proxy` variable on Linux: the bypass entries joined by `,`.
pub fn linux_no_proxy(bypass: Option<&str>) -> (r: String)
    ensures
        r@ == bypass_list_spec(opt_str_view(bypass), ','),
{
    proof {
        reveal_strlit(",");
        assert(","@ =~= seq![',']);
    }
    bypass_list(bypass, ',', ",")
}

/// `no_proxy` that macOS publishes to the user's launch environment.
pub const MACOS_NO_PROXY: &'static str = "localhost,127.0.0.1,::1,.local";

/// `host:port`, the proxy server of the Windows registry.
pub fn proxy_address(host: &str, port: u16) -> (r: String)
    ensures
        r@ == host@ + ":"@ + decimal(port as nat),
{
    let mut r = String::from_str(host);
    r.append(":");
    let p = decimal_string(port);
    r.append(p.as_str());
    r
}

/// `scheme://host:port`.
pub fn proxy_url(scheme: &str, host: &str, port: u16) -> (r: String)
    ensures
        r@ == scheme@ + "://"@ + host@ + ":"@ + decimal(port as nat),
{
    let mut r = String::from_str(scheme);
    r.append("://");
    let a = proxy_address(host, port);
    r.append(a.as_str());
    assert(r@ =~= scheme@ + "://"@ + host@ + ":"@ + decimal(port as nat));
    r
}

// ---------------------------------------------------------------------------
// macOS network services
// ---------------------------------------------------------------------------

/// A network service that the user browses through: Wi-Fi, Ethernet or
/// the USB LAN adapter.
pub open spec fn user_facing_spec(name: Seq<char>) -> bool {
    ||| name == "Wi-Fi"@
    ||| name == "Ethernet"@
    ||| name == "USB 10/100/1000 LAN"@
    ||| starts_with(name, "Wi-Fi"@)
    ||| eq_ignore_ascii_case(name, "wi-fi"@)
}

/// Whether a network service is one the user browses through.
pub fn is_user_facing_service(name: &str) -> (r: bool)
    ensures
        r == user_facing_spec(name@),
{
    let v = chars_of(name);
    assert(v@.subrange(0, v@.len() as int) =~= v@);
    str_eq(name, "Wi-Fi") || str_eq(name, "Ethernet") || str_eq(name, "USB 10/100/1000 LAN")
        || starts_with_range(&v, 0, v.len(), &chars_of("Wi-Fi")) || eq_ignore_ascii_case_range(
        &v,
        0,
        v.len(),
        &chars_of("wi-fi"),
    )
}

/// A network service that belongs to a VPN or proxy client.
pub open spec fn vpn_service_spec(name: Seq<char>) -> bool {
    let lower = ascii_lower(name);
    ||| contains(lower, "shadowrocket"@)
    ||| contains(lower, "clash"@)
    ||| contains(lower, "surge"@)
    ||| contains(lower, "stash"@)
    ||| contains(lower, "wireguard"@)
    ||| contains(lower, "tailscale"@)
    ||| lower == "vpn"@
    ||| contains(lower, " vpn"@)
}

fn has_lit(v: &Vec<char>, lit: &str) -> (r: bool)
    ensures
        r == contains(v@, lit@),
{
    let p = chars_of(lit);
    assert(v@.subrange(0, v@.len() as int) =~= v@);
    contains_range(v, 0, v.len(), &p)
}

/// Whether a network service belongs to a VPN or proxy client.
pub fn is_vpn_service_name(name: &str) -> (r: bool)
    ensures
        r == vpn_service_spec(name@),
{
    let lower = lower_vec(&chars_of(name));
    let vpn = chars_of("vpn");
    assert(lower@.subrange(0, lower@.len() as int) =~= lower@);
    has_lit(&lower, "shadowrocket") || has_lit(&lower, "clash") || has_lit(&lower, "surge")
        || has_lit(&lower, "stash") || has_lit(&lower, "wireguard") || has_lit(
        &lower,
        "tailscale",
    ) || crate::text::eq_range(&lower, 0, lower.len(), &vpn) || has_lit(&lower, " vpn")
}

/// Whether `c` has a Unicode numeric general category (`Nd`, `Nl`, `No`),
/// as `char::is_numeric` decides.
pub uninterp spec fn char_is_numeric(c: char) -> bool;

/// Wraps `char::is_numeric`.  The contract only names the answer; the
/// Unicode tables are not restated.
#[verifier::external_body]
fn is_numeric(c: char) -> (r: bool)
    ensures
        r == char_is_numeric(c),
{
    c.is_numeric()
}

/// For a header line `(17) Wi-Fi` of `networksetup -listnetworkserviceorder`
/// (trimmed): `Some` of the service's name, `Some(None)` where it has
/// none; `None` for other lines.
pub open spec fn service_header_spec(t: Seq<char>) -> Option<Option<Seq<char>>> {
    service_header_given(t, t.len() > 1 && char_is_numeric(t[1]))
}

/// `service_header_spec`, given whether the line's second character is
/// numeric.
pub open spec fn service_header_given(t: Seq<char>, second_is_numeric: bool) -> Option<
    Option<Seq<char>>,
> {
    if t.len() > 1 && t[0] == '(' && second_is_numeric {
        let rest = t.skip(1);
        let name0 = match find_char(rest, ')') {
            Some(i) => trim(rest.skip(i + 1)),
            None => seq![],
        };
        let name = trim(trim_start_char(name0, '*'));
        Some(
            if name.len() == 0 {
                None
            } else {
                Some(name)
            },
        )
    } else {
        None
    }
}

/// The service named by a header line `(17) Wi-Fi` of
/// `networksetup -listnetworkserviceorder` (`Some(None)` where the name is
/// empty; `None` for other lines), given whether the trimmed line's second
/// character is numeric.
pub fn service_header_name(line: &str, second_is_numeric: bool) -> (r: Option<Option<String>>)
    ensures
        header_model(r) == service_header_given(trim(line@), second_is_numeric),
{
    let v = chars_of(line);
    assert(v@.subrange(0, v@.len() as int) =~= v@);
    let (a, b) = trim_range(&v, 0, v.len());
    header_name(&v, a, b, second_is_numeric)
}

/// The device named in a line `(Hardware Port: Wi-Fi, Device: en1)`
/// (trimmed), where it names one.
pub open spec fn device_in_line_spec(t: Seq<char>) -> Option<Seq<char>> {
    match find(t, "Device:"@) {
        Some(idx) => {
            let d = trim(trim_end_char(trim(t.skip(idx + "Device:"@.len())), ')'));
            if d.len() > 0 {
                Some(d)
            } else {
                None
            }
        },
        None => None,
    }
}

/// The device of `service` in the lines `ls` of
/// `networksetup -listnetworkserviceorder`, with `current` the service
/// whose block the lines continue.
pub open spec fn service_device_spec(
    ls: Seq<Seq<char>>,
    service: Seq<char>,
    current: Option<Seq<char>>,
) -> Option<Seq<char>>
    decreases ls.len(),
{
    if ls.len() == 0 {
        None
    } else {
        let t = trim(ls[0]);
        match service_header_spec(t) {
            Some(name) => service_device_spec(ls.drop_first(), service, name),
            None => if current == Some(service) && device_in_line_spec(t) is Some {
                device_in_line_spec(t)
            } else {
                service_device_spec(ls.drop_first(), service, current)
            },
        }
    }
}

pub open spec fn opt_view(o: Option<String>) -> Option<Seq<char>> {
    match o {
        Some(s) => Some(s@),
        None => None,
    }
}

proof fn lemma_lines_cons(first: Seq<char>, rest: Seq<Seq<char>>)
    ensures
        (seq![first] + rest)[0] == first,
        (seq![first] + rest).drop_first() == rest,
        (seq![first] + rest).len() > 0,
{
    assert((seq![first] + rest).drop_first() =~= rest);
}

pub open spec fn header_model(r: Option<Option<String>>) -> Option<Option<Seq<char>>> {
    match r {
        Some(n) => Some(opt_view(n)),
        None => None,
    }
}

fn header_name(v: &Vec<char>, a: usize, b: usize, second_is_numeric: bool) -> (r: Option<
    Option<String>,
>)
    requires
        a <= b <= v@.len(),
    ensures
        header_model(r) == service_header_given(v@.subrange(a as int, b as int), second_is_numeric),
{
    let ghost t = v@.subrange(a as int, b as int);
    if b - a > 1 && v[a] == '(' && second_is_numeric {
        assert(t[0] == v@[a as int] && t[1] == v@[a + 1]);
        let ghost rest = t.skip(1);
        assert(rest =~= v@.subrange(a + 1, b as int));
        let (c, d) = match find_char_range(v, a + 1, b, ')') {
            Some(i) => {
                assert(rest.skip(i - a) =~= v@.subrange(i + 1, b as int));
                trim_range(v, i + 1, b)
            },
            None => {
                assert(v@.subrange(b as int, b as int) =~= Seq::<char>::empty());
                (b, b)
            },
        };
        let e = trim_start_char_range(v, c, d, '*');
        let (f, g) = trim_range(v, e, d);
        if f == g {
            Some(None)
        } else {
            Some(Some(string_from(v, f, g)))
        }
    } else {
        None
    }
}

fn device_in_line(v: &Vec<char>, a: usize, b: usize, marker: &Vec<char>) -> (r: Option<String>)
    requires
        a <= b <= v@.len(),
        marker@ == "Device:"@,
    ensures
        opt_view(r) == device_in_line_spec(v@.subrange(a as int, b as int)),
{
    let ghost t = v@.subrange(a as int, b as int);
    match find_range(v, a, b, marker) {
        Some(idx) => {
            proof {
                crate::text::lemma_find(t, marker@);
            }
            let start = idx + marker.len();
            assert(t.skip(idx - a + marker@.len()) =~= v@.subrange(start as int, b as int));
            let (c, d) = trim_range(v, start, b);
            let e = trim_end_char_range(v, c, d, ')');
            let (f, g) = trim_range(v, c, e);
            if f == g {
                None
            } else {
                Some(string_from(v, f, g))
            }
        },
        None => None,
    }
}

/// The device (`en1`) of a network service, read from the answer of
/// `networksetup -listnetworkserviceorder`.
pub fn parse_service_device(order_text: &str, service: &str) -> (r: Option<String>)
    ensures
        opt_view(r) == service_device_spec(lines(order_text@), service@, None),
{
    let v = chars_of(order_text);
    let marker = chars_of("Device:");
    let n = v.len();
    let mut pos: usize = 0;
    let mut current: Option<String> = None;
    assert(v@.subrange(0, n as int) =~= v@);
    while pos < n
        invariant
            n == v@.len(),
            v@ == order_text@,
            marker@ == "Device:"@,
            pos <= n,
            service_device_spec(lines(v@), service@, None) == service_device_spec(
                lines(v@.subrange(pos as int, n as int)),
                service@,
                opt_view(current),
            ),
        decreases n - pos,
    {
        let (line_hi, next) = next_line(&v, pos, n);
        proof {
            lemma_lines_cons(
                v@.subrange(pos as int, line_hi as int),
                lines(v@.subrange(next as int, n as int)),
            );
        }
        let (a, b) = trim_range(&v, pos, line_hi);
        let numeric = b - a > 1 && is_numeric(v[a + 1]);
        assert(numeric == (v@.subrange(a as int, b as int).len() > 1 && char_is_numeric(
            v@.subrange(a as int, b as int)[1],
        )));
        match header_name(&v, a, b, numeric) {
            Some(name) => {
                current = name;
            },
            None => {
                let is_current = match &current {
                    Some(c) => str_eq(c.as_str(), service),
                    None => false,
                };
                if is_current {
                    let dev = device_in_line(&v, a, b, &marker);
                    if dev.is_some() {
                        return dev;
                    }
                }
            },
        }
        pos = next;
    }
    assert(v@.subrange(n as int, n as int) =~= Seq::<char>::empty());
    None
}

/// The services listed from the second line on, trimmed, without the `*`
/// that marks disabled services, empty ones and lone `*` dropped.
pub open spec fn services_from_spec(ls: Seq<Seq<char>>) -> Seq<Seq<char>>
    decreases ls.len(),
{
    if ls.len() == 0 {
        seq![]
    } else {
        let t = trim(ls[0]);
        let rest = services_from_spec(ls.drop_first());
        if t.len() > 0 && t != "*"@ {
            let name = trim(trim_start_char(t, '*'));
            if name.len() > 0 {
                seq![name] + rest
            } else {
                rest
            }
        } else {
            rest
        }
    }
}

/// The network services in the answer of
/// `networksetup -listallnetworkservices` (whose first line is a notice).
pub open spec fn network_services_spec(output: Seq<char>) -> Seq<Seq<char>> {
    let ls = lines(output);
    if ls.len() == 0 {
        seq![]
    } else {
        services_from_spec(ls.drop_first())
    }
}

/// Reads the network services from the answer of
/// `networksetup -listallnetworkservices`.
pub fn parse_network_services(output: &str) -> (r: Vec<String>)
    ensures
        string_views(r@) == network_services_spec(output@),
{
    let v = chars_of(output);
    let star = chars_of("*");
    let n = v.len();
    assert(v@.subrange(0, n as int) =~= v@);
    let mut out: Vec<String> = Vec::new();
    if n == 0 {
        return out;
    }
    let (first_hi, first_next) = next_line(&v, 0, n);
    proof {
        lemma_lines_cons(
            v@.subrange(0, first_hi as int),
            lines(v@.subrange(first_next as int, n as int)),
        );
        assert(string_views(out@) + services_from_spec(
            lines(v@.subrange(first_next as int, n as int)),
        ) =~= services_from_spec(lines(v@.subrange(first_next as int, n as int))));
    }
    let mut pos = first_next;
    let ghost mut acc: Seq<Seq<char>> = seq![];
    while pos < n
        invariant
            n == v@.len(),
            v@ == output@,
            star@ == "*"@,
            first_next <= pos <= n,
            network_services_spec(v@) == string_views(out@) + services_from_spec(
                lines(v@.subrange(pos as int, n as int)),
            ),
        decreases n - pos,
    {
        let (line_hi, next) = next_line(&v, pos, n);
        proof {
            lemma_lines_cons(
                v@.subrange(pos as int, line_hi as int),
                lines(v@.subrange(next as int, n as int)),
            );
        }
        let (a, b) = trim_range(&v, pos, line_hi);
        if a < b && !crate::text::eq_range(&v, a, b, &star) {
            let c = trim_start_char_range(&v, a, b, '*');
            let (d, e) = trim_range(&v, c, b);
            if d < e {
                let name = string_from(&v, d, e);
                let ghost before = out@;
                out.push(name);
                proof {
                    let rest = services_from_spec(lines(v@.subrange(next as int, n as int)));
                    assert(string_views(out@) =~= string_views(before).push(name@));
                    assert(string_views(before) + (seq![name@] + rest) =~= string_views(out@)
                        + rest);
                }
            }
        }
        pos = next;
    }
    assert(v@.subrange(n as int, n as int) =~= Seq::<char>::empty());
    assert(string_views(out@) + Seq::<Seq<char>>::empty() =~= string_views(out@));
    out
}

/// An interface that can be holding an IPv4 address: not empty, not a
/// tunnel (`utun`), not loopback (`lo`).
pub open spec fn may_have_ipv4_spec(iface: Seq<char>) -> bool {
    !(iface.len() == 0 || starts_with(iface, "utun"@) || starts_with(iface, "lo"@))
}

/// Whether an interface is worth asking for an IPv4 address.
pub fn iface_may_have_ipv4(iface: &str) -> (r: bool)
    ensures
        r == may_have_ipv4_spec(iface@),
{
    let v = chars_of(iface);
    assert(v@.subrange(0, v@.len() as int) =~= v@);
    !(v.len() == 0 || starts_with_range(&v, 0, v.len(), &chars_of("utun")) || starts_with_range(
        &v,
        0,
        v.len(),
        &chars_of("lo"),
    ))
}

pub open spec fn facing_pred() -> spec_fn(Seq<char>) -> bool {
    |n: Seq<char>| user_facing_spec(n) || vpn_service_spec(n)
}

/// The services that receive the system proxy: user-facing ones and the
/// VPN's own (tools that read `scutil` see the VPN service's proxy).
pub fn facing_services(all: &Vec<String>) -> (r: Vec<String>)
    ensures
        string_views(r@) == string_views(all@).filter(facing_pred()),
{
    let ghost s = string_views(all@);
    let mut out: Vec<String> = Vec::new();
    let n = all.len();
    for i in 0..n
        invariant
            n == all@.len(),
            s == string_views(all@),
            string_views(out@) == s.take(i as int).filter(facing_pred()),
    {
        proof {
            reveal(Seq::filter);
            assert(s.take(i + 1).drop_last() =~= s.take(i as int));
        }
        let name = all[i].as_str();
        if is_user_facing_service(name) || is_vpn_service_name(name) {
            let ghost before = out@;
            out.push(all[i].clone());
            assert(string_views(out@) =~= string_views(before).push(all@[i as int]@));
        }
    }
    assert(s.take(n as int) =~= s);
    out
}

/// The services whose device holds an IPv4 address (a missing flag counts
/// as no address).
pub open spec fn live_spec(fs: Seq<Seq<char>>, flags: Seq<bool>) -> Seq<Seq<char>>
    decreases fs.len(),
{
    if fs.len() == 0 {
        seq![]
    } else {
        let rest = live_spec(fs.drop_last(), flags);
        if fs.len() - 1 < flags.len() && flags[fs.len() - 1] {
            rest.push(fs.last())
        } else {
            rest
        }
    }
}

/// A Wi-Fi service.
pub open spec fn is_wifi_spec(name: Seq<char>) -> bool {
    eq_ignore_ascii_case(name, "wi-fi"@) || starts_with(name, "Wi-Fi"@)
}

/// `live` with each Wi-Fi service of `fs` that it lacks put in front, in
/// the order of `fs`.
pub open spec fn add_wifi_spec(live: Seq<Seq<char>>, fs: Seq<Seq<char>>) -> Seq<Seq<char>>
    decreases fs.len(),
{
    if fs.len() == 0 {
        live
    } else {
        let l = add_wifi_spec(live, fs.drop_last());
        if is_wifi_spec(fs.last()) && !l.contains(fs.last()) {
            seq![fs.last()] + l
        } else {
            l
        }
    }
}

pub open spec fn lex_order() -> spec_fn(Seq<char>, Seq<char>) -> bool {
    |a: Seq<char>, b: Seq<char>| lex_lt(a, b)
}

/// `s` with each run of equal strings reduced to one.
pub open spec fn dedup_strs(s: Seq<Seq<char>>) -> Seq<Seq<char>>
    decreases s.len(),
{
    if s.len() <= 1 {
        s
    } else {
        let d = dedup_strs(s.drop_last());
        if s.last() == s[s.len() - 2] {
            d
        } else {
            d.push(s.last())
        }
    }
}

/// The services that receive the system proxy: those with an IPv4
/// address, plus every Wi-Fi service (the one users see in the system
/// settings); all candidates where that leaves none; sorted, without
/// duplicates.
pub open spec fn active_services_spec(fs: Seq<Seq<char>>, flags: Seq<bool>) -> Seq<Seq<char>> {
    let l = add_wifi_spec(live_spec(fs, flags), fs);
    let base = if l.len() == 0 {
        fs
    } else {
        l
    };
    dedup_strs(sort_by(base, lex_order()))
}

fn copy_strings(v: &Vec<String>) -> (r: Vec<String>)
    ensures
        string_views(r@) == string_views(v@),
{
    let mut r: Vec<String> = Vec::new();
    let n = v.len();
    for i in 0..n
        invariant
            n == v@.len(),
            string_views(r@) == string_views(v@).take(i as int),
    {
        let ghost before = r@;
        r.push(v[i].clone());
        assert(string_views(r@) =~= string_views(before).push(v@[i as int]@));
        assert(string_views(r@) =~= string_views(v@).take(i + 1));
    }
    assert(string_views(v@).take(n as int) =~= string_views(v@));
    r
}

fn contains_string(v: &Vec<String>, x: &str) -> (r: bool)
    ensures
        r == string_views(v@).contains(x@),
{
    let n = v.len();
    for i in 0..n
        invariant
            n == v@.len(),
            forall|j: int| 0 <= j < i ==> string_views(v@)[j] != x@,
    {
        if str_eq(v[i].as_str(), x) {
            assert(string_views(v@)[i as int] == x@);
            return true;
        }
    }
    false
}

fn is_wifi(name: &str) -> (r: bool)
    ensures
        r == is_wifi_spec(name@),
{
    let v = chars_of(name);
    assert(v@.subrange(0, v@.len() as int) =~= v@);
    eq_ignore_ascii_case_range(&v, 0, v.len(), &chars_of("wi-fi")) || starts_with_range(
        &v,
        0,
        v.len(),
        &chars_of("Wi-Fi"),
    )
}

fn lex_lt_strings(a: &String, b: &String) -> (r: bool)
    ensures
        r == lex_lt(a@, b@),
{
    lex_lt_vec(&chars_of(a.as_str()), &chars_of(b.as_str()))
}

/// Chooses the network services that receive the system proxy, from the
/// candidate services and whether each one's device holds an IPv4
/// address.
pub fn choose_proxy_services(facing: &Vec<String>, has_ipv4: &Vec<bool>) -> (r: Vec<String>)
    ensures
        string_views(r@) == active_services_spec(string_views(facing@), has_ipv4@),
{
    let ghost fs = string_views(facing@);
    let n = facing.len();
    let mut live: Vec<String> = Vec::new();
    for i in 0..n
        invariant
            n == facing@.len(),
            fs == string_views(facing@),
            string_views(live@) == live_spec(fs.take(i as int), has_ipv4@),
    {
        assert(fs.take(i + 1).drop_last() =~= fs.take(i as int));
        if i < has_ipv4.len() && has_ipv4[i] {
            let ghost before = live@;
            live.push(facing[i].clone());
            assert(string_views(live@) =~= string_views(before).push(facing@[i as int]@));
        }
    }
    assert(fs.take(n as int) =~= fs);
    let ghost l0 = string_views(live@);
    for i in 0..n
        invariant
            n == facing@.len(),
            fs == string_views(facing@),
            string_views(live@) == add_wifi_spec(l0, fs.take(i as int)),
    {
        assert(fs.take(i + 1).drop_last() =~= fs.take(i as int));
        let name = facing[i].as_str();
        if is_wifi(name) && !contains_string(&live, name) {
            let ghost before = live@;
            live.insert(0, facing[i].clone());
            assert(string_views(live@) =~= seq![facing@[i as int]@] + string_views(before));
        }
    }
    assert(fs.take(n as int) =~= fs);
    let base = if live.len() == 0 {
        copy_strings(facing)
    } else {
        live
    };
    let ghost b = string_views(base@);
    let mut sorted: Vec<String> = Vec::new();
    let m = base.len();
    for i in 0..m
        invariant
            m == base@.len(),
            b == string_views(base@),
            string_views(sorted@) == sort_by(b.take(i as int), lex_order()),
    {
        let x = base[i].clone();
        let mut p: usize = 0;
        while p < sorted.len() && !lex_lt_strings(&x, &sorted[p])
            invariant
                p <= sorted@.len(),
                forall|j: int| 0 <= j < p ==> !lex_lt(x@, #[trigger] string_views(sorted@)[j]),
            decreases sorted@.len() - p,
        {
            p += 1;
        }
        proof {
            lemma_insert_sorted_at(string_views(sorted@), x@, lex_order(), p as int);
            lemma_sort_by_step(b, lex_order(), i as int);
        }
        let ghost before = sorted@;
        sorted.insert(p, x);
        assert(string_views(sorted@) =~= string_views(before).insert(p as int, x@));
    }
    assert(b.take(m as int) =~= b);
    let ghost s = string_views(sorted@);
    let mut out: Vec<String> = Vec::new();
    let k = sorted.len();
    for i in 0..k
        invariant
            k == sorted@.len(),
            s == string_views(sorted@),
            string_views(out@) == dedup_strs(s.take(i as int)),
    {
        assert(s.take(i + 1).drop_last() =~= s.take(i as int));
        let ghost before = out@;
        if i == 0 {
            out.push(sorted[0].clone());
            assert(string_views(out@) =~= s.take(1));
        } else {
            assert(s.take(i + 1)[i - 1] == s[i - 1]);
            if !str_eq(sorted[i].as_str(), sorted[i - 1].as_str()) {
                out.push(sorted[i].clone());
                assert(string_views(out@) =~= string_views(before).push(s[i as int]));
            }
        }
    }
    assert(s.take(k as int) =~= s);
    out
}

// ---------------------------------------------------------------------------
// Laws
// ---------------------------------------------------------------------------

proof fn lemma_clean_pieces(ps: Seq<Seq<char>>)
    ensures
        forall|i: int|
            0 <= i < clean_pieces(ps).len() ==> #[trigger] clean_pieces(ps)[i].len() > 0 && exists|
                k: int,
            |
                0 <= k < ps.len() && clean_pieces(ps)[i] == trim(#[trigger] ps[k]),
    decreases ps.len(),
{
    if ps.len() > 0 {
        lemma_clean_pieces(ps.drop_last());
        let rest = clean_pieces(ps.drop_last());
        assert forall|i: int| 0 <= i < clean_pieces(ps).len() implies #[trigger] clean_pieces(
            ps,
        )[i].len() > 0 && exists|k: int|
            0 <= k < ps.len() && clean_pieces(ps)[i] == trim(#[trigger] ps[k]) by {
            if i < rest.len() {
                assert(clean_pieces(ps)[i] == rest[i]);
                let k = choose|k: int|
                    0 <= k < ps.drop_last().len() && rest[i] == trim(#[trigger] ps.drop_last()[k]);
                assert(ps[k] == ps.drop_last()[k]);
            } else {
                assert(clean_pieces(ps)[i] == trim(ps[ps.len() - 1]));
            }
        }
    }
}

/// Every bypass entry is non-empty and holds no separator.
pub proof fn law_bypass_entries_clean(raw: Option<Seq<char>>)
    ensures
        forall|i: int|
            0 <= i < bypass_entries_spec(raw).len() ==> #[trigger] bypass_entries_spec(raw)[i].len()
                > 0,
        forall|i: int, c: char|
            0 <= i < bypass_entries_spec(raw).len() && #[trigger] bypass_entries_spec(
                raw,
            )[i].contains(c) ==> !is_bypass_sep(c),
{
    let source = match raw {
        Some(r) => if trim(r).len() > 0 {
            r
        } else {
            DEFAULT_BYPASS_LIST@
        },
        None => DEFAULT_BYPASS_LIST@,
    };
    let ps = split_any(source, bypass_sep());
    lemma_split_no_sep(source, bypass_sep());
    lemma_clean_pieces(ps);
    let e = bypass_entries_spec(raw);
    assert forall|i: int, c: char|
        0 <= i < e.len() && #[trigger] e[i].contains(c) implies !is_bypass_sep(c) by {
        let k = choose|k: int| 0 <= k < ps.len() && e[i] == trim(#[trigger] ps[k]);
        lemma_trim_chars(ps[k]);
        assert(ps[k].contains(c));
    }
}

proof fn lemma_live_members(fs: Seq<Seq<char>>, flags: Seq<bool>)
    ensures
        forall|x: Seq<char>| #[trigger] live_spec(fs, flags).contains(x) ==> fs.contains(x),
        forall|i: int|
            0 <= i < fs.len() && i < flags.len() && flags[i] ==> live_spec(fs, flags).contains(
                #[trigger] fs[i],
            ),
    decreases fs.len(),
{
    if fs.len() > 0 {
        let d = fs.drop_last();
        lemma_live_members(d, flags);
        let rest = live_spec(d, flags);
        let l = live_spec(fs, flags);
        assert forall|x: Seq<char>| #[trigger] l.contains(x) implies fs.contains(x) by {
            let j = choose|j: int| 0 <= j < l.len() && l[j] == x;
            if j < rest.len() {
                assert(l[j] == rest[j]);
                assert(rest.contains(x));
                let k = choose|k: int| 0 <= k < d.len() && d[k] == x;
                assert(fs[k] == x);
            } else {
                assert(fs[fs.len() - 1] == x);
            }
        }
        assert forall|i: int| 0 <= i < fs.len() && i < flags.len() && flags[i] implies l.contains(
            #[trigger] fs[i],
        ) by {
            if i < fs.len() - 1 {
                assert(d[i] == fs[i]);
                assert(rest.contains(fs[i]));
                let j = choose|j: int| 0 <= j < rest.len() && rest[j] == fs[i];
                if flags.len() > fs.len() - 1 && flags[fs.len() - 1] {
                    assert(l[j] == fs[i]);
                }
            } else {
                assert(l[l.len() - 1] == fs[i]);
            }
        }
    }
}

proof fn lemma_add_wifi_members(live: Seq<Seq<char>>, fs: Seq<Seq<char>>)
    ensures
        forall|x: Seq<char>| live.contains(x) ==> #[trigger] add_wifi_spec(live, fs).contains(x),
        forall|i: int|
            0 <= i < fs.len() && is_wifi_spec(fs[i]) ==> add_wifi_spec(live, fs).contains(
                #[trigger] fs[i],
            ),
        forall|x: Seq<char>| #[trigger]
            add_wifi_spec(live, fs).contains(x) ==> live.contains(x) || fs.contains(x),
    decreases fs.len(),
{
    if fs.len() > 0 {
        let d = fs.drop_last();
        lemma_add_wifi_members(live, d);
        let l = add_wifi_spec(live, d);
        let r = add_wifi_spec(live, fs);
        let x0 = fs.last();
        let grows = is_wifi_spec(x0) && !l.contains(x0);
        assert forall|x: Seq<char>| #[trigger] l.contains(x) implies r.contains(x) by {
            if grows {
                let j = choose|j: int| 0 <= j < l.len() && l[j] == x;
                assert(r[j + 1] == x);
            }
        }
        assert forall|x: Seq<char>| live.contains(x) implies #[trigger] r.contains(x) by {
            assert(l.contains(x));
        }
        assert forall|i: int| 0 <= i < fs.len() && is_wifi_spec(fs[i]) implies r.contains(
            #[trigger] fs[i],
        ) by {
            if i < fs.len() - 1 {
                assert(d[i] == fs[i]);
                assert(l.contains(fs[i]));
            } else if grows {
                assert(r[0] == fs[i]);
            }
        }
        assert forall|x: Seq<char>| #[trigger] r.contains(x) implies live.contains(x) || fs.contains(
            x,
        ) by {
            let j = choose|j: int| 0 <= j < r.len() && r[j] == x;
            if grows {
                if j == 0 {
                    assert(fs[fs.len() - 1] == x);
                } else {
                    assert(l[j - 1] == x);
                    assert(l.contains(x));
                }
            } else {
                assert(l.contains(x));
            }
            if l.contains(x) && !live.contains(x) {
                assert(d.contains(x));
                let k = choose|k: int| 0 <= k < d.len() && d[k] == x;
                assert(fs[k] == x);
            }
        }
    }
}

proof fn lemma_dedup_strs(s: Seq<Seq<char>>)
    ensures
        forall|x: Seq<char>| #[trigger] dedup_strs(s).contains(x) <==> s.contains(x),
        s.len() > 0 ==> dedup_strs(s).len() > 0 && dedup_strs(s).last() == s.last(),
        sorted_by(s, lex_order()) ==> forall|i: int, j: int|
            0 <= i < j < dedup_strs(s).len() ==> lex_lt(
                #[trigger] dedup_strs(s)[i],
                #[trigger] dedup_strs(s)[j],
            ),
    decreases s.len(),
{
    if s.len() > 1 {
        let d0 = s.drop_last();
        lemma_dedup_strs(d0);
        let d = dedup_strs(d0);
        let r = dedup_strs(s);
        assert(d0.last() == s[s.len() - 2]);
        assert forall|x: Seq<char>| #[trigger] r.contains(x) <==> s.contains(x) by {
            if s.contains(x) {
                let k = choose|k: int| 0 <= k < s.len() && s[k] == x;
                if k < s.len() - 1 {
                    assert(d0[k] == x);
                    assert(d0.contains(x));
                    assert(d.contains(x));
                    let j = choose|j: int| 0 <= j < d.len() && d[j] == x;
                    if !(s.last() == s[s.len() - 2]) {
                        assert(r[j] == x);
                    }
                    assert(r.contains(x));
                } else if s.last() == s[s.len() - 2] {
                    assert(d[d.len() - 1] == x);
                    assert(r.contains(x));
                } else {
                    assert(r[r.len() - 1] == x);
                    assert(r.contains(x));
                }
            }
            if r.contains(x) {
                let j = choose|j: int| 0 <= j < r.len() && r[j] == x;
                if j < d.len() {
                    assert(d[j] == x);
                    assert(d.contains(x));
                    let k = choose|k: int| 0 <= k < d0.len() && d0[k] == x;
                    assert(s[k] == x);
                } else {
                    assert(s[s.len() - 1] == x);
                }
            }
        }
        if sorted_by(s, lex_order()) {
            assert(sorted_by(d0, lex_order())) by {
                assert forall|i: int, j: int| 0 <= i < j < d0.len() implies !lex_order()(
                    #[trigger] d0[j],
                    #[trigger] d0[i],
                ) by {
                    assert(d0[i] == s[i] && d0[j] == s[j]);
                }
            }
            if !(s.last() == s[s.len() - 2]) {
                assert(!lex_lt(s.last(), s[s.len() - 2]));
                lemma_lex_total(s.last(), s[s.len() - 2]);
                assert forall|i: int, j: int| 0 <= i < j < r.len() implies lex_lt(
                    #[trigger] r[i],
                    #[trigger] r[j],
                ) by {
                    if j < d.len() {
                        assert(r[i] == d[i] && r[j] == d[j]);
                    } else {
                        assert(r[j] == s.last());
                        assert(r[i] == d[i]);
                        if i < d.len() - 1 {
                            assert(lex_lt(d[i], d[d.len() - 1]));
                            crate::text::lemma_lex_transitive(d[i], d[d.len() - 1], s.last());
                        }
                    }
                }
            }
        }
    } else if s.len() == 1 {
        assert forall|x: Seq<char>| #[trigger] dedup_strs(s).contains(x) <==> s.contains(x) by {}
    }
}

proof fn lemma_lex_order_strict()
    ensures
        strict_order(lex_order()),
{
    assert forall|a: Seq<char>| !#[trigger] lex_order()(a, a) by {
        lemma_lex_irreflexive(a);
    }
    assert forall|a: Seq<char>, b: Seq<char>, c: Seq<char>|
        #[trigger] lex_order()(a, b) && #[trigger] lex_order()(b, c) implies lex_order()(a, c) by {
        lemma_lex_transitive(a, b, c);
    }
}

proof fn lemma_active_members(fs: Seq<Seq<char>>, flags: Seq<bool>)
    ensures
        forall|x: Seq<char>| #[trigger]
            active_services_spec(fs, flags).contains(x) <==> (if add_wifi_spec(
                live_spec(fs, flags),
                fs,
            ).len() == 0 {
                fs
            } else {
                add_wifi_spec(live_spec(fs, flags), fs)
            }).contains(x),
{
    let l = add_wifi_spec(live_spec(fs, flags), fs);
    let base = if l.len() == 0 {
        fs
    } else {
        l
    };
    lemma_sort_by_members(base, lex_order());
    lemma_dedup_strs(sort_by(base, lex_order()));
}

/// Every Wi-Fi service among the candidates receives the system proxy.
pub proof fn law_wifi_always_receives_proxy(fs: Seq<Seq<char>>, flags: Seq<bool>)
    ensures
        forall|i: int|
            0 <= i < fs.len() && is_wifi_spec(fs[i]) ==> active_services_spec(fs, flags).contains(
                #[trigger] fs[i],
            ),
{
    lemma_add_wifi_members(live_spec(fs, flags), fs);
    lemma_active_members(fs, flags);
    let l = add_wifi_spec(live_spec(fs, flags), fs);
    assert forall|i: int| 0 <= i < fs.len() && is_wifi_spec(fs[i]) implies active_services_spec(
        fs,
        flags,
    ).contains(#[trigger] fs[i]) by {
        assert(l.contains(fs[i]));
        assert(l.len() > 0);
    }
}

/// Every candidate whose device holds an IPv4 address receives the system
/// proxy.
pub proof fn law_live_services_receive_proxy(fs: Seq<Seq<char>>, flags: Seq<bool>)
    ensures
        forall|i: int|
            0 <= i < fs.len() && i < flags.len() && flags[i] ==> active_services_spec(
                fs,
                flags,
            ).contains(#[trigger] fs[i]),
{
    lemma_live_members(fs, flags);
    lemma_add_wifi_members(live_spec(fs, flags), fs);
    lemma_active_members(fs, flags);
    let l = add_wifi_spec(live_spec(fs, flags), fs);
    assert forall|i: int|
        0 <= i < fs.len() && i < flags.len() && flags[i] implies active_services_spec(
        fs,
        flags,
    ).contains(#[trigger] fs[i]) by {
        assert(live_spec(fs, flags).contains(fs[i]));
        assert(l.contains(fs[i]));
    }
}

/// Only candidates receive the system proxy; each once, in
/// lexicographic order.
pub proof fn law_services_from_candidates_sorted(fs: Seq<Seq<char>>, flags: Seq<bool>)
    ensures
        forall|x: Seq<char>| #[trigger] active_services_spec(fs, flags).contains(x) ==> fs.contains(x),
        forall|i: int, j: int|
            0 <= i < j < active_services_spec(fs, flags).len() ==> lex_lt(
                #[trigger] active_services_spec(fs, flags)[i],
                #[trigger] active_services_spec(fs, flags)[j],
            ),
{
    let live = live_spec(fs, flags);
    lemma_live_members(fs, flags);
    lemma_add_wifi_members(live, fs);
    lemma_active_members(fs, flags);
    let l = add_wifi_spec(live, fs);
    let base = if l.len() == 0 {
        fs
    } else {
        l
    };
    assert forall|x: Seq<char>| #[trigger]
        active_services_spec(fs, flags).contains(x) implies fs.contains(x) by {
        assert(base.contains(x));
        if l.len() > 0 {
            assert(l.contains(x));
            if live.contains(x) {
            }
        }
    }
    lemma_lex_order_strict();
    lemma_sort_by_sorted(base, lex_order());
    lemma_dedup_strs(sort_by(base, lex_order()));
}

/// No bypass entry holds a separator of the user's list: entries never
/// contain `;`, `,` or a newline.
pub proof fn law_bypass_entries_split_at_separators(raw: Option<Seq<char>>)
    ensures
        forall|i: int|
            0 <= i < bypass_entries_spec(raw).len() ==> !(#[trigger] bypass_entries_spec(
                raw,
            )[i]).contains(';') && !bypass_entries_spec(raw)[i].contains(',')
                && !bypass_entries_spec(raw)[i].contains('\n'),
{
    law_bypass_entries_clean(raw);
    let e = bypass_entries_spec(raw);
    assert forall|i: int| 0 <= i < e.len() implies !(#[trigger] e[i]).contains(';')
        && !e[i].contains(',') && !e[i].contains('\n') by {
        if e[i].contains(';') {
            assert(!is_bypass_sep(';'));
        }
        if e[i].contains(',') {
            assert(!is_bypass_sep(','));
        }
        if e[i].contains('\n') {
            assert(!is_bypass_sep('\n'));
        }
    }
}

/// A service of a VPN or proxy client (its name, in ASCII lower case,
/// holds `shadowrocket`, `clash`, `surge`, `stash`, `wireguard`,
/// `tailscale` or ` vpn`, or is `vpn`) is kept among the services that
/// receive the system proxy.
pub proof fn law_vpn_client_services_receive_proxy(name: Seq<char>, all: Seq<Seq<char>>)
    requires
        all.contains(name),
        contains(ascii_lower(name), "shadowrocket"@) || contains(ascii_lower(name), "clash"@)
            || contains(ascii_lower(name), "surge"@) || contains(ascii_lower(name), "stash"@)
            || contains(ascii_lower(name), "wireguard"@) || contains(
            ascii_lower(name),
            "tailscale"@,
        ) || ascii_lower(name) == "vpn"@ || contains(ascii_lower(name), " vpn"@),
    ensures
        vpn_service_spec(name),
        all.filter(facing_pred()).contains(name),
{
    lemma_filter_members(all, facing_pred());
}

proof fn lemma_trim_end_last(t: Seq<char>)
    ensures
        trim_end(t).len() > 0 ==> !is_ws(trim_end(t).last()),
    decreases t.len(),
{
    if t.len() > 0 && is_ws(t.last()) {
        lemma_trim_end_last(t.drop_last());
    }
}

/// A trimmed string neither starts nor ends with whitespace.
proof fn lemma_trim_edges(s: Seq<char>)
    ensures
        trim(s).len() > 0 ==> !is_ws(trim(s)[0]) && !is_ws(trim(s).last()),
{
    let t = trim_start(s);
    lemma_trim_start_ws(s);
    lemma_trim_end_prefix(t);
    lemma_trim_end_last(t);
    if trim(s).len() > 0 {
        assert(trim(s)[0] == t[0]);
    }
}

/// Bypass entries carry no surrounding whitespace.
pub proof fn law_bypass_entries_trimmed(raw: Option<Seq<char>>)
    ensures
        forall|i: int|
            0 <= i < bypass_entries_spec(raw).len() ==> !is_ws(
                (#[trigger] bypass_entries_spec(raw)[i])[0],
            ) && !is_ws(bypass_entries_spec(raw)[i].last()),
{
    let source = match raw {
        Some(r) => if trim(r).len() > 0 {
            r
        } else {
            DEFAULT_BYPASS_LIST@
        },
        None => DEFAULT_BYPASS_LIST@,
    };
    let ps = split_any(source, bypass_sep());
    lemma_clean_pieces(ps);
    let e = bypass_entries_spec(raw);
    assert(e == clean_pieces(ps));
    assert forall|i: int| 0 <= i < e.len() implies !is_ws((#[trigger] e[i])[0]) && !is_ws(
        e[i].last(),
    ) by {
        assert(clean_pieces(ps)[i].len() > 0);
        let k = choose|k: int| 0 <= k < ps.len() && e[i] == trim(#[trigger] ps[k]);
        lemma_trim_edges(ps[k]);
    }
}

/// The services users browse through (`Wi-Fi`, any `Wi-Fi…` service, any
/// ASCII case of `wi-fi`, `Ethernet` and the USB LAN adapter) are kept
/// among the services that receive the system proxy.
pub proof fn law_user_facing_services_receive_proxy(name: Seq<char>, all: Seq<Seq<char>>)
    requires
        all.contains(name),
        name == "Wi-Fi"@ || name == "Ethernet"@ || name == "USB 10/100/1000 LAN"@ || starts_with(
            name,
            "Wi-Fi"@,
        ) || ascii_lower(name) == "wi-fi"@,
    ensures
        user_facing_spec(name),
        all.filter(facing_pred()).contains(name),
{
    reveal_strlit("wi-fi");
    assert(ascii_lower("wi-fi"@) =~= "wi-fi"@);
    lemma_filter_members(all, facing_pred());
}

/// Every Wi-Fi service among the candidates (one whose name starts with
/// `Wi-Fi`, or is `wi-fi` in any ASCII case) receives the system proxy,
/// whether or not its device has an address.
pub proof fn law_wifi_named_services_receive_proxy(fs: Seq<Seq<char>>, flags: Seq<bool>, i: int)
    requires
        0 <= i < fs.len(),
        starts_with(fs[i], "Wi-Fi"@) || ascii_lower(fs[i]) == "wi-fi"@,
    ensures
        active_services_spec(fs, flags).contains(fs[i]),
{
    reveal_strlit("wi-fi");
    assert(ascii_lower("wi-fi"@) =~= "wi-fi"@);
    law_wifi_always_receives_proxy(fs, flags);
}

/// Where no candidate has an address and none is a Wi-Fi service, every
/// candidate receives the system proxy.
pub proof fn law_all_candidates_when_none_live(fs: Seq<Seq<char>>, flags: Seq<bool>, i: int)
    requires
        0 <= i < fs.len(),
        forall|j: int| 0 <= j < fs.len() && j < flags.len() ==> !#[trigger] flags[j],
        forall|j: int|
            0 <= j < fs.len() ==> !starts_with(#[trigger] fs[j], "Wi-Fi"@) && ascii_lower(fs[j])
                != "wi-fi"@,
    ensures
        active_services_spec(fs, flags).contains(fs[i]),
{
    reveal_strlit("wi-fi");
    assert(ascii_lower("wi-fi"@) =~= "wi-fi"@);
    lemma_live_none(fs, flags);
    let live = live_spec(fs, flags);
    assert forall|j: int| 0 <= j < fs.len() implies !is_wifi_spec(#[trigger] fs[j]) by {
        assert(!starts_with(fs[j], "Wi-Fi"@) && ascii_lower(fs[j]) != "wi-fi"@);
    }
    lemma_add_wifi_none(live, fs);
    lemma_active_members(fs, flags);
    assert(fs.contains(fs[i]));
}

proof fn lemma_add_wifi_none(live: Seq<Seq<char>>, fs: Seq<Seq<char>>)
    requires
        forall|j: int| 0 <= j < fs.len() ==> !is_wifi_spec(#[trigger] fs[j]),
    ensures
        add_wifi_spec(live, fs) == live,
    decreases fs.len(),
{
    if fs.len() > 0 {
        let d = fs.drop_last();
        assert forall|j: int| 0 <= j < d.len() implies !is_wifi_spec(#[trigger] d[j]) by {
            assert(d[j] == fs[j]);
        }
        lemma_add_wifi_none(live, d);
        assert(!is_wifi_spec(fs[fs.len() - 1]));
    }
}

proof fn lemma_live_none(fs: Seq<Seq<char>>, flags: Seq<bool>)
    requires
        forall|j: int| 0 <= j < fs.len() && j < flags.len() ==> !#[trigger] flags[j],
    ensures
        live_spec(fs, flags).len() == 0,
    decreases fs.len(),
{
    if fs.len() > 0 {
        lemma_live_none(fs.drop_last(), flags);
    }
}

} // verus!
