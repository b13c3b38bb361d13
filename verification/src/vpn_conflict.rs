//! Detection of other VPNs that take the default route, and the notices
//! that the system proxy shows about them.

use vstd::prelude::*;
use crate::json::{entries_model, JsonNumber, JsonObject, JsonValue, SpecJson, SpecNumber};
use crate::sorting::{
    lemma_insert_sorted_at, lemma_sort_by_members, lemma_sort_by_sorted, lemma_sort_by_step,
    sort_by, sorted_by, strict_order,
};
use crate::text::{
    ascii_lower, chars_of, contains, contains_range, find_char, find_char_range,
    join, lemma_lex_irreflexive, lemma_lex_total, lemma_lex_transitive, lex_lt, lex_lt_vec, lines, lower_vec,
    next_line, starts_with, starts_with_range, str_eq, string_from, trim, trim_range,
};

verus! {

/// Another VPN or proxy that competes for the traffic.
#[derive(Debug, PartialEq, Eq)]
pub struct VpnConflict {
    pub name: String,
    pub kind: String,
    pub detail: String,
}

/// What the conflict scan found.
#[derive(Debug, PartialEq, Eq)]
pub struct VpnConflictReport {
    /// Another VPN holds the default route.
    pub has_conflict: bool,
    /// The system proxy points at another program's port.
    pub proxy_hijacked: bool,
    pub conflicts: Vec<VpnConflict>,
}

fn copy_string(s: &String) -> (r: String)
    ensures
        r == *s,
{
    s.clone()
}

fn copy_conflict(c: &VpnConflict) -> (r: VpnConflict)
    ensures
        r == *c,
{
    VpnConflict { name: copy_string(&c.name), kind: copy_string(&c.kind), detail: copy_string(&c.detail) }
}

/// How one conflict reads in a summary: `name（kind）`.
pub open spec fn conflict_label(c: VpnConflict) -> Seq<char> {
    c.name@ + "（"@ + c.kind@ + "）"@
}

/// The summary of a list of conflicts: their labels joined by `、`.
pub open spec fn summary_spec(cs: Seq<VpnConflict>) -> Seq<char> {
    join(Seq::new(cs.len(), |i: int| conflict_label(cs[i])), "、"@)
}

impl VpnConflictReport {
    /// A report with nothing found.
    pub fn empty() -> (r: Self)
        ensures
            !r.has_conflict,
            !r.proxy_hijacked,
            r.conflicts@.len() == 0,
    {
        VpnConflictReport { has_conflict: false, proxy_hijacked: false, conflicts: Vec::new() }
    }

    /// The conflicts as one line, `name（kind）` joined by `、`; empty
    /// where there are none.
    pub fn summary(&self) -> (s: String)
        ensures
            s@ == summary_spec(self.conflicts@),
    {
        let ghost parts = Seq::new(self.conflicts@.len(), |i: int| conflict_label(self.conflicts@[i]));
        let mut s = String::new();
        let n = self.conflicts.len();
        for i in 0..n
            invariant
                n == self.conflicts@.len(),
                parts == Seq::new(self.conflicts@.len(), |i: int| conflict_label(self.conflicts@[i])),
                s@ == join(parts.take(i as int), "、"@),
        {
            let ghost before = s@;
            if i > 0 {
                s.append("、");
            }
            let c = &self.conflicts[i];
            s.append(c.name.as_str());
            s.append("（");
            s.append(c.kind.as_str());
            s.append("）");
            proof {
                assert(parts.take(i + 1).drop_last() =~= parts.take(i as int));
                if i == 0 {
                    assert(parts.take(1) =~= seq![parts[0]]);
                    assert(s@ =~= parts[0]);
                } else {
                    assert(s@ =~= before + "、"@ + parts[i as int]);
                }
            }
        }
        assert(parts.take(n as int) =~= parts);
        s
    }
}

/// Order of conflicts: by name, then by kind.
pub open spec fn conflict_before(a: VpnConflict, b: VpnConflict) -> bool {
    lex_lt(a.name@, b.name@) || (a.name@ == b.name@ && lex_lt(a.kind@, b.kind@))
}

pub open spec fn conflict_order() -> spec_fn(VpnConflict, VpnConflict) -> bool {
    |a: VpnConflict, b: VpnConflict| conflict_before(a, b)
}

/// Two conflicts with the same name and kind.
pub open spec fn same_conflict(a: VpnConflict, b: VpnConflict) -> bool {
    a.name@ == b.name@ && a.kind@ == b.kind@
}

/// `s` with each run of conflicts of the same name and kind reduced to its
/// first.
pub open spec fn dedup_conflicts(s: Seq<VpnConflict>) -> Seq<VpnConflict>
    decreases s.len(),
{
    if s.len() <= 1 {
        s
    } else {
        let d = dedup_conflicts(s.drop_last());
        if same_conflict(s.last(), s[s.len() - 2]) {
            d
        } else {
            d.push(s.last())
        }
    }
}

/// Some conflict is a VPN.
pub open spec fn has_vpn(cs: Seq<VpnConflict>) -> bool {
    exists|i: int| 0 <= i < cs.len() && (#[trigger] cs[i]).kind@ == "vpn"@
}

fn conflict_before_exec(a: &VpnConflict, b: &VpnConflict) -> (r: bool)
    ensures
        r == conflict_before(*a, *b),
{
    let an = chars_of(a.name.as_str());
    let bn = chars_of(b.name.as_str());
    if lex_lt_vec(&an, &bn) {
        return true;
    }
    if !str_eq(a.name.as_str(), b.name.as_str()) {
        return false;
    }
    let ak = chars_of(a.kind.as_str());
    let bk = chars_of(b.kind.as_str());
    lex_lt_vec(&ak, &bk)
}

/// The conflict report for the VPN services found: conflicts sorted by
/// name and kind with duplicates removed; a conflict is reported where one
/// of them is a VPN.  The system proxy is never reported as taken over: on
/// macOS `scutil --proxy` shows the other VPN's port while the apps use
/// `networksetup`'s.
pub fn detect_vpn_conflicts(our_proxy_port: u16, vpn_services: Vec<VpnConflict>) -> (r: VpnConflictReport)
    ensures
        r.conflicts@ == dedup_conflicts(sort_by(vpn_services@, conflict_order())),
        r.has_conflict == has_vpn(r.conflicts@),
        !r.proxy_hijacked,
{
    let ghost input = vpn_services@;
    let mut sorted: Vec<VpnConflict> = Vec::new();
    let n = vpn_services.len();
    for i in 0..n
        invariant
            n == vpn_services@.len(),
            input == vpn_services@,
            sorted@ == sort_by(input.take(i as int), conflict_order()),
    {
        let x = copy_conflict(&vpn_services[i]);
        let mut p: usize = 0;
        while p < sorted.len() && !conflict_before_exec(&x, &sorted[p])
            invariant
                p <= sorted@.len(),
                forall|j: int| 0 <= j < p ==> !conflict_before(x, #[trigger] sorted@[j]),
            decreases sorted@.len() - p,
        {
            p += 1;
        }
        proof {
            lemma_insert_sorted_at(sorted@, x, conflict_order(), p as int);
            lemma_sort_by_step(input, conflict_order(), i as int);
        }
        sorted.insert(p, x);
    }
    assert(input.take(n as int) =~= input);
    let ghost s = sorted@;
    let mut out: Vec<VpnConflict> = Vec::new();
    let m = sorted.len();
    for i in 0..m
        invariant
            m == sorted@.len(),
            s == sorted@,
            out@ == dedup_conflicts(s.take(i as int)),
    {
        proof {
            assert(s.take(i + 1).drop_last() =~= s.take(i as int));
        }
        if i == 0 {
            out.push(copy_conflict(&sorted[0]));
            assert(out@ =~= s.take(1));
        } else {
            let prev = &sorted[i - 1];
            let cur = &sorted[i];
            assert(s.take(i + 1)[i - 1] == s[i - 1]);
            if !(str_eq(cur.name.as_str(), prev.name.as_str()) && str_eq(cur.kind.as_str(), prev.kind.as_str())) {
                out.push(copy_conflict(cur));
            }
        }
    }
    assert(s.take(m as int) =~= s);
    let mut has_conflict = false;
    let k = out.len();
    for i in 0..k
        invariant
            k == out@.len(),
            has_conflict <==> exists|j: int| 0 <= j < i && (#[trigger] out@[j]).kind@ == "vpn"@,
    {
        if str_eq(out[i].kind.as_str(), "vpn") {
            has_conflict = true;
        }
    }
    VpnConflictReport { has_conflict, proxy_hijacked: false, conflicts: out }
}

/// The conflict order is a strict order.
pub proof fn lemma_conflict_order_strict()
    ensures
        strict_order(conflict_order()),
{
    assert forall|a: VpnConflict| !#[trigger] conflict_order()(a, a) by {
        lemma_lex_irreflexive(a.name@);
        lemma_lex_irreflexive(a.kind@);
    }
    assert forall|a: VpnConflict, b: VpnConflict, c: VpnConflict|
        #[trigger] conflict_order()(a, b) && #[trigger] conflict_order()(b, c) implies conflict_order()(
        a,
        c,
    ) by {
        if lex_lt(a.name@, b.name@) && lex_lt(b.name@, c.name@) {
            lemma_lex_transitive(a.name@, b.name@, c.name@);
        }
        if a.name@ == b.name@ && b.name@ == c.name@ && lex_lt(a.kind@, b.kind@) && lex_lt(
            b.kind@,
            c.kind@,
        ) {
            lemma_lex_transitive(a.kind@, b.kind@, c.kind@);
        }
    }
}

// ---------------------------------------------------------------------------
// Reading the system's answers
// ---------------------------------------------------------------------------

/// The text between the first two double quotes of `line`, trimmed, where
/// it is not empty.
pub open spec fn quoted_name_spec(line: Seq<char>) -> Option<Seq<char>> {
    match find_char(line, '"') {
        None => None,
        Some(start) => {
            let rest = line.skip(start + 1);
            match find_char(rest, '"') {
                None => None,
                Some(end) => {
                    let name = trim(rest.take(end));
                    if name.len() == 0 {
                        None
                    } else {
                        Some(name)
                    }
                },
            }
        },
    }
}

pub open spec fn opt_view(o: Option<String>) -> Option<Seq<char>> {
    match o {
        Some(s) => Some(s@),
        None => None,
    }
}

fn quoted_name_range(v: &Vec<char>, lo: usize, hi: usize) -> (r: Option<String>)
    requires
        lo <= hi <= v@.len(),
    ensures
        opt_view(r) == quoted_name_spec(v@.subrange(lo as int, hi as int)),
{
    let ghost line = v@.subrange(lo as int, hi as int);
    match find_char_range(v, lo, hi, '"') {
        None => None,
        Some(start) => {
            let ghost rest = line.skip(start - lo + 1);
            assert(rest =~= v@.subrange(start + 1, hi as int));
            match find_char_range(v, start + 1, hi, '"') {
                None => None,
                Some(end) => {
                    assert(rest.take(end - start - 1) =~= v@.subrange(start + 1, end as int));
                    let (a, b) = trim_range(v, start + 1, end);
                    if a == b {
                        None
                    } else {
                        Some(string_from(v, a, b))
                    }
                },
            }
        },
    }
}

/// The quoted service name in a line of `scutil --nc list`.
pub fn extract_quoted_name(line: &str) -> (r: Option<String>)
    ensures
        opt_view(r) == quoted_name_spec(line@),
{
    let v = chars_of(line);
    assert(v@.subrange(0, v@.len() as int) =~= v@);
    quoted_name_range(&v, 0, v.len())
}

/// The interface of the first `interface:` line with a name, in the
/// answer of `route -n get default`.
pub open spec fn route_interface_spec(ls: Seq<Seq<char>>) -> Option<Seq<char>>
    decreases ls.len(),
{
    if ls.len() == 0 {
        None
    } else {
        let t = trim(ls[0]);
        if starts_with(t, "interface:"@) && trim(t.skip("interface:"@.len() as int)).len() > 0 {
            Some(trim(t.skip("interface:"@.len() as int)))
        } else {
            route_interface_spec(ls.drop_first())
        }
    }
}

proof fn lemma_lines_cons(first: Seq<char>, rest: Seq<Seq<char>>)
    ensures
        (seq![first] + rest)[0] == first,
        (seq![first] + rest).drop_first() == rest,
        (seq![first] + rest).len() > 0,
{
    assert((seq![first] + rest).drop_first() =~= rest);
}

/// The default route's interface, read from the answer of
/// `route -n get default`.
pub fn parse_default_route_interface(output: &str) -> (r: Option<String>)
    ensures
        opt_view(r) == route_interface_spec(lines(output@)),
{
    let v = chars_of(output);
    let prefix = chars_of("interface:");
    let n = v.len();
    let mut pos: usize = 0;
    assert(v@.subrange(0, n as int) =~= v@);
    while pos < n
        invariant
            n == v@.len(),
            v@ == output@,
            prefix@ == "interface:"@,
            pos <= n,
            route_interface_spec(lines(v@)) == route_interface_spec(
                lines(v@.subrange(pos as int, n as int)),
            ),
        decreases n - pos,
    {
        let (line_hi, next) = next_line(&v, pos, n);
        proof {
            lemma_lines_cons(
                v@.subrange(pos as int, line_hi as int),
                lines(v@.subrange(next as int, n as int)),
            );
        }
        let (a, b) = trim_range(&v, pos, line_hi);
        if starts_with_range(&v, a, b, &prefix) {
            let (c, d) = trim_range(&v, a + prefix.len(), b);
            assert(v@.subrange(a as int, b as int).skip(prefix@.len() as int) =~= v@.subrange(
                a + prefix@.len(),
                b as int,
            ));
            if c < d {
                return Some(string_from(&v, c, d));
            }
        }
        pos = next;
    }
    assert(v@.subrange(n as int, n as int) =~= Seq::<char>::empty());
    None
}

/// The name of the connected VPN in the answer of `scutil --nc list`: the
/// quoted name on the first line, other than sing-box's and this
/// program's own, that reads `(Connected)`.
pub open spec fn nc_vpn_name_spec(ls: Seq<Seq<char>>) -> Option<Seq<char>>
    decreases ls.len(),
{
    if ls.len() == 0 {
        None
    } else {
        let lower = ascii_lower(ls[0]);
        if contains(lower, "sing-box"@) || contains(lower, "pika"@) {
            nc_vpn_name_spec(ls.drop_first())
        } else if contains(lower, "(connected)"@) {
            quoted_name_spec(ls[0])
        } else {
            nc_vpn_name_spec(ls.drop_first())
        }
    }
}

/// The connected VPN's name, read from the answer of `scutil --nc list`.
pub fn parse_connected_vpn_name(output: &str) -> (r: Option<String>)
    ensures
        opt_view(r) == nc_vpn_name_spec(lines(output@)),
{
    let v = chars_of(output);
    let sing_box = chars_of("sing-box");
    let pika = chars_of("pika");
    let connected = chars_of("(connected)");
    let n = v.len();
    let mut pos: usize = 0;
    assert(v@.subrange(0, n as int) =~= v@);
    while pos < n
        invariant
            n == v@.len(),
            v@ == output@,
            sing_box@ == "sing-box"@,
            pika@ == "pika"@,
            connected@ == "(connected)"@,
            pos <= n,
            nc_vpn_name_spec(lines(v@)) == nc_vpn_name_spec(lines(v@.subrange(pos as int, n as int))),
        decreases n - pos,
    {
        let (line_hi, next) = next_line(&v, pos, n);
        proof {
            lemma_lines_cons(
                v@.subrange(pos as int, line_hi as int),
                lines(v@.subrange(next as int, n as int)),
            );
        }
        let line = string_from(&v, pos, line_hi);
        let lower = lower_vec(&chars_of(line.as_str()));
        let len = lower.len();
        assert(lower@.subrange(0, len as int) =~= lower@);
        if !(contains_range(&lower, 0, len, &sing_box) || contains_range(&lower, 0, len, &pika))
            && contains_range(&lower, 0, len, &connected) {
            return quoted_name_range(&v, pos, line_hi);
        }
        pos = next;
    }
    assert(v@.subrange(n as int, n as int) =~= Seq::<char>::empty());
    None
}

/// The conflict for a VPN that holds the default route: where the default
/// route's interface is a `utun` tunnel, that VPN (named as `scutil`
/// names the connected VPN, or `系统 VPN`).
pub open spec fn connected_vpn_spec(default_iface: Option<Seq<char>>, vpn_name: Option<Seq<char>>) -> Seq<(Seq<char>, Seq<char>, Seq<char>)> {
    match default_iface {
        Some(iface) => if starts_with(iface, "utun"@) {
            seq![
                (
                    match vpn_name {
                        Some(n) => n,
                        None => "系统 VPN"@,
                    },
                    "vpn"@,
                    "默认路由在 "@ + iface + "，Telegram 等 App 会走这条 VPN 而不是系统代理"@,
                ),
            ]
        } else {
            seq![]
        },
        None => seq![],
    }
}

pub open spec fn conflict_views(cs: Seq<VpnConflict>) -> Seq<(Seq<char>, Seq<char>, Seq<char>)> {
    Seq::new(cs.len(), |i: int| (cs[i].name@, cs[i].kind@, cs[i].detail@))
}

/// The VPN services that compete for the traffic, from the default route's
/// interface and the name of the connected VPN.  Only the default route
/// counts: `scutil --nc` may still report a VPN as connected after it was
/// switched off.
pub fn detect_connected_vpn_services(default_iface: Option<String>, vpn_name: Option<String>) -> (r: Vec<VpnConflict>)
    ensures
        conflict_views(r@) == connected_vpn_spec(opt_view(default_iface), opt_view(vpn_name)),
{
    let mut found: Vec<VpnConflict> = Vec::new();
    match default_iface {
        Some(iface) => {
            let v = chars_of(iface.as_str());
            assert(v@.subrange(0, v@.len() as int) =~= v@);
            if starts_with_range(&v, 0, v.len(), &chars_of("utun")) {
                let name = match vpn_name {
                    Some(n) => n,
                    None => String::from_str("系统 VPN"),
                };
                let mut detail = String::from_str("默认路由在 ");
                detail.append(iface.as_str());
                detail.append("，Telegram 等 App 会走这条 VPN 而不是系统代理");
                found.push(VpnConflict { name, kind: String::from_str("vpn"), detail });
            }
        },
        None => {},
    }
    assert(conflict_views(found@) =~= connected_vpn_spec(opt_view(default_iface), opt_view(vpn_name)));
    found
}

// ---------------------------------------------------------------------------
// Notices
// ---------------------------------------------------------------------------

/// What to tell the user after a conflict scan.
#[derive(Debug, PartialEq, Eq)]
pub enum ConflictNotice {
    /// A conflict appeared; the summary names it.
    Detected(String),
    /// The conflict that was reported is gone.
    Cleared,
    /// Nothing changed.
    Unchanged,
}

/// The notice for a scan, given whether the previous scan found a
/// conflict; remembers whether this one did.  A conflict is announced when
/// it appears and its end when it disappears; the system proxy is written
/// either way.
pub fn conflict_notice(report: &VpnConflictReport, last_had_conflict: &mut bool) -> (n: ConflictNotice)
    ensures
        *final(last_had_conflict) == report.has_conflict,
        report.has_conflict && !*old(last_had_conflict) ==> (n matches ConflictNotice::Detected(s)
            && s@ == summary_spec(report.conflicts@)),
        !report.has_conflict && *old(last_had_conflict) ==> n is Cleared,
        report.has_conflict == *old(last_had_conflict) ==> n is Unchanged,
{
    if report.has_conflict {
        let n = if !*last_had_conflict {
            ConflictNotice::Detected(report.summary())
        } else {
            ConflictNotice::Unchanged
        };
        *last_had_conflict = true;
        n
    } else if *last_had_conflict {
        *last_had_conflict = false;
        ConflictNotice::Cleared
    } else {
        ConflictNotice::Unchanged
    }
}

fn str_value(s: &str) -> (v: JsonValue)
    ensures
        v.model() == SpecJson::Str(s@),
{
    JsonValue::String(String::from_str(s))
}

fn push_entry(entries: &mut Vec<(String, JsonValue)>, key: &str, value: JsonValue)
    ensures
        entries_model(final(entries)@) == entries_model(old(entries)@).push((key@, value.model())),
{
    let ghost before = entries@;
    entries.push((String::from_str(key), value));
    assert(entries@.drop_last() =~= before);
}

/// Message shown when another VPN holds the default route.
pub const VPN_CONFLICT_MESSAGE: &'static str = "本机还有其他 VPN 抢走了默认路由。浏览器可走 Pika 系统代理；Telegram 需要先断开那个 VPN。";

/// Message shown when the other VPN is gone.
pub const VPN_CONFLICT_CLEARED_MESSAGE: &'static str = "其他加速器已关闭，Pika 已接管系统代理";

/// Payload of the `vpn-conflict-detected` event.
pub fn vpn_conflict_detected_payload(summary: &str) -> (v: JsonValue)
    ensures
        v.model() == SpecJson::Object(
            seq![
                ("code"@, SpecJson::Str("VPN_CONFLICT_DETECTED"@)),
                ("message"@, SpecJson::Str(VPN_CONFLICT_MESSAGE@)),
                ("details"@, SpecJson::Str(summary@)),
            ],
        ),
{
    let mut entries: Vec<(String, JsonValue)> = Vec::new();
    push_entry(&mut entries, "code", str_value("VPN_CONFLICT_DETECTED"));
    push_entry(&mut entries, "message", str_value(VPN_CONFLICT_MESSAGE));
    push_entry(&mut entries, "details", str_value(summary));
    let v = JsonValue::Object(JsonObject { entries });
    assert(entries_model(entries@) =~= seq![
        ("code"@, SpecJson::Str("VPN_CONFLICT_DETECTED"@)),
        ("message"@, SpecJson::Str(VPN_CONFLICT_MESSAGE@)),
        ("details"@, SpecJson::Str(summary@)),
    ]);
    v
}

/// Payload of the `vpn-conflict-cleared` event.
pub fn vpn_conflict_cleared_payload(proxy_port: u16) -> (v: JsonValue)
    ensures
        v.model() == SpecJson::Object(
            seq![
                ("proxy_port"@, SpecJson::Number(SpecNumber::PosInt(proxy_port as u64))),
                ("message"@, SpecJson::Str(VPN_CONFLICT_CLEARED_MESSAGE@)),
            ],
        ),
{
    let mut entries: Vec<(String, JsonValue)> = Vec::new();
    push_entry(&mut entries, "proxy_port", JsonValue::Number(JsonNumber::PosInt(proxy_port as u64)));
    push_entry(&mut entries, "message", str_value(VPN_CONFLICT_CLEARED_MESSAGE));
    let v = JsonValue::Object(JsonObject { entries });
    assert(entries_model(entries@) =~= seq![
        ("proxy_port"@, SpecJson::Number(SpecNumber::PosInt(proxy_port as u64))),
        ("message"@, SpecJson::Str(VPN_CONFLICT_CLEARED_MESSAGE@)),
    ]);
    v
}

// ---------------------------------------------------------------------------
// Laws of the report
// ---------------------------------------------------------------------------

proof fn lemma_conflict_total(a: VpnConflict, b: VpnConflict)
    ensures
        conflict_before(a, b) || conflict_before(b, a) || same_conflict(a, b),
{
    lemma_lex_total(a.name@, b.name@);
    lemma_lex_total(a.kind@, b.kind@);
}

proof fn lemma_dedup_conflicts(s: Seq<VpnConflict>)
    ensures
        forall|c: VpnConflict| #[trigger] dedup_conflicts(s).contains(c) ==> s.contains(c),
        forall|i: int|
            0 <= i < s.len() ==> exists|j: int|
                0 <= j < dedup_conflicts(s).len() && same_conflict(
                    #[trigger] dedup_conflicts(s)[j],
                    #[trigger] s[i],
                ),
        s.len() > 0 ==> dedup_conflicts(s).len() > 0 && same_conflict(
            dedup_conflicts(s).last(),
            s.last(),
        ),
        sorted_by(s, conflict_order()) ==> forall|i: int, j: int|
            0 <= i < j < dedup_conflicts(s).len() ==> conflict_before(
                #[trigger] dedup_conflicts(s)[i],
                #[trigger] dedup_conflicts(s)[j],
            ),
    decreases s.len(),
{
    if s.len() > 1 {
        let d0 = s.drop_last();
        lemma_dedup_conflicts(d0);
        let d = dedup_conflicts(d0);
        let r = dedup_conflicts(s);
        let dup = same_conflict(s.last(), s[s.len() - 2]);
        assert(d0.last() == s[s.len() - 2]);
        assert forall|c: VpnConflict| #[trigger] r.contains(c) implies s.contains(c) by {
            let j = choose|j: int| 0 <= j < r.len() && r[j] == c;
            if j < d.len() {
                assert(d[j] == c);
                assert(d.contains(c));
                let k = choose|k: int| 0 <= k < d0.len() && d0[k] == c;
                assert(s[k] == c);
            } else {
                assert(s[s.len() - 1] == c);
            }
        }
        assert forall|i: int| 0 <= i < s.len() implies exists|j: int|
            0 <= j < r.len() && same_conflict(#[trigger] r[j], #[trigger] s[i]) by {
            if i < s.len() - 1 {
                assert(d0[i] == s[i]);
                let j = choose|j: int| 0 <= j < d.len() && same_conflict(d[j], d0[i]);
                assert(r[j] == d[j]);
            } else if dup {
                assert(same_conflict(r[r.len() - 1], s[i]));
            } else {
                assert(r[r.len() - 1] == s[i]);
            }
        }
        if sorted_by(s, conflict_order()) {
            assert(sorted_by(d0, conflict_order())) by {
                assert forall|i: int, j: int| 0 <= i < j < d0.len() implies !conflict_order()(
                    #[trigger] d0[j],
                    #[trigger] d0[i],
                ) by {
                    assert(d0[i] == s[i] && d0[j] == s[j]);
                }
            }
            if !dup {
                assert(!conflict_before(s.last(), s[s.len() - 2]));
                lemma_conflict_total(s.last(), s[s.len() - 2]);
                assert forall|i: int, j: int| 0 <= i < j < r.len() implies conflict_before(
                    #[trigger] r[i],
                    #[trigger] r[j],
                ) by {
                    if j < d.len() {
                        assert(r[i] == d[i] && r[j] == d[j]);
                    } else {
                        assert(r[j] == s.last());
                        assert(r[i] == d[i]);
                        let dl = d[d.len() - 1];
                        assert(conflict_before(dl, s.last()));
                        if i < d.len() - 1 {
                            lemma_conflict_order_strict();
                            assert(conflict_order()(d[i], dl) && conflict_order()(dl, s.last()));
                        }
                    }
                }
            }
        }
    } else if s.len() == 1 {
        assert(same_conflict(dedup_conflicts(s)[0], s[0]));
    }
}

/// The report lists each VPN service found under its name and kind, once,
/// in order of name and then kind, and nothing else.
pub proof fn law_report_conflicts(services: Seq<VpnConflict>)
    ensures
        ({
            let r = dedup_conflicts(sort_by(services, conflict_order()));
            &&& forall|c: VpnConflict| #[trigger] r.contains(c) ==> services.contains(c)
            &&& forall|i: int|
                0 <= i < services.len() ==> exists|j: int|
                    0 <= j < r.len() && same_conflict(#[trigger] r[j], #[trigger] services[i])
            &&& forall|i: int, j: int|
                0 <= i < j < r.len() ==> conflict_before(#[trigger] r[i], #[trigger] r[j])
        }),
{
    let sorted = sort_by(services, conflict_order());
    lemma_conflict_order_strict();
    lemma_sort_by_sorted(services, conflict_order());
    lemma_sort_by_members(services, conflict_order());
    lemma_dedup_conflicts(sorted);
    let r = dedup_conflicts(sorted);
    assert forall|i: int| 0 <= i < services.len() implies exists|j: int|
        0 <= j < r.len() && same_conflict(#[trigger] r[j], #[trigger] services[i]) by {
        assert(services.contains(services[i]));
        assert(sorted.contains(services[i]));
        let k = choose|k: int| 0 <= k < sorted.len() && sorted[k] == services[i];
        let j = choose|j: int| 0 <= j < r.len() && same_conflict(r[j], sorted[k]);
    }
}

} // verus!
