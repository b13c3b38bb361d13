//! Choice of the nodes that the automatic (url-test) group probes:
//! placeholder nodes are dropped, Hong Kong residential lines come first,
//! and the group is kept small.

use vstd::prelude::*;
use crate::common::{
    TAG_AUTO, TAG_BLOCK, TAG_DIRECT, TAG_GOOGLE, TAG_MANUAL, TAG_NETFLIX, TAG_OPENAI,
    TAG_TELEGRAM, TAG_YOUTUBE, URLTEST_IDLE_TIMEOUT, URLTEST_INTERVAL, URLTEST_MAX_CANDIDATES,
    URLTEST_TOLERANCE,
};
use crate::json::{
    entries_model, items_model, lemma_items_model, obj_get, obj_insert, JsonNumber, JsonObject,
    JsonValue, SpecJson, SpecNumber,
};
use crate::sorting::{
    lemma_filter_all, lemma_filter_members, lemma_filter_multiset, lemma_filter_sorted,
    lemma_insert_sorted_at, lemma_sort_by_members, lemma_sort_by_permutation,
    lemma_sort_by_sorted, lemma_sort_by_sorted_fixed, lemma_sort_by_step, lemma_sorted_unique,
    sort_by, sorted_by, strict_order, total_order,
};
use crate::text::{
    ascii_upper, chars_of, contains, contains_range, eq_range, lemma_lex_irreflexive,
    lemma_lex_total, lemma_lex_transitive, lex_lt, lex_lt_vec, occurs_at, upper_vec,
};

verus! {

broadcast use vstd::seq_lib::group_filter_ensures;

// ---------------------------------------------------------------------------
// Specifications
// ---------------------------------------------------------------------------

/// The views of a sequence of strings.
pub open spec fn views(v: Seq<String>) -> Seq<Seq<char>> {
    Seq::new(v.len(), |i: int| v[i]@)
}

/// A node tag that a subscription uses for notices (web site, traffic
/// left, expiry date) rather than for a usable node.
pub open spec fn is_placeholder(t: Seq<char>) -> bool {
    ||| contains(t, "官网"@)
    ||| contains(t, "流量"@)
    ||| contains(t, "过期"@)
    ||| contains(t, "到期"@)
    ||| contains(t, "剩余"@)
    ||| contains(t, "到期时间"@)
    ||| contains(t, "yuntijiasu"@)
    ||| contains(t, "yunti.io"@)
}

/// A Hong Kong node: the name, the flag, or `HK` in any ASCII case.
pub open spec fn is_hk(t: Seq<char>) -> bool {
    contains(t, "香港"@) || contains(t, "🇭🇰"@) || contains(ascii_upper(t), "HK"@)
}

/// A residential or private-line node.
pub open spec fn is_residential_tag(t: Seq<char>) -> bool {
    contains(t, "家宽"@) || contains(t, "住宅"@) || contains(t, "IEPL"@) || contains(t, "IPLC"@)
}

/// Quality rank; smaller ranks enter the automatic group first.
pub open spec fn rank(t: Seq<char>) -> u8 {
    if is_hk(t) && is_residential_tag(t) {
        0
    } else if is_hk(t) {
        1
    } else if is_residential_tag(t) {
        2
    } else {
        3
    }
}

/// A tag of one of the groups or outbounds that the configuration itself
/// defines.
pub open spec fn is_reserved(t: Seq<char>) -> bool {
    ||| t == TAG_DIRECT@
    ||| t == TAG_AUTO@
    ||| t == TAG_MANUAL@
    ||| t == TAG_BLOCK@
    ||| t == TAG_TELEGRAM@
    ||| t == TAG_YOUTUBE@
    ||| t == TAG_NETFLIX@
    ||| t == TAG_OPENAI@
    ||| t == TAG_GOOGLE@
}

/// A tag that may be probed.
pub open spec fn is_usable(t: Seq<char>) -> bool {
    !is_reserved(t) && !is_placeholder(t)
}

/// Order of candidates: by rank, then lexicographically.
pub open spec fn tag_before(a: Seq<char>, b: Seq<char>) -> bool {
    rank(a) < rank(b) || (rank(a) == rank(b) && lex_lt(a, b))
}

pub open spec fn tag_order() -> spec_fn(Seq<char>, Seq<char>) -> bool {
    |a: Seq<char>, b: Seq<char>| tag_before(a, b)
}

pub open spec fn usable_pred() -> spec_fn(Seq<char>) -> bool {
    |t: Seq<char>| is_usable(t)
}

pub open spec fn hk_pred() -> spec_fn(Seq<char>) -> bool {
    |t: Seq<char>| is_hk(t)
}

/// Some tag of `s` is a Hong Kong tag.
pub open spec fn any_hk(s: Seq<Seq<char>>) -> bool {
    exists|i: int| 0 <= i < s.len() && is_hk(#[trigger] s[i])
}

/// The usable tags in candidate order.
pub open spec fn ranked_usable(tags: Seq<Seq<char>>) -> Seq<Seq<char>> {
    sort_by(tags.filter(usable_pred()), tag_order())
}

/// The ranked usable tags, reduced to the Hong Kong ones where there are any.
pub open spec fn candidate_pool(tags: Seq<Seq<char>>) -> Seq<Seq<char>> {
    let s = ranked_usable(tags);
    if any_hk(s) {
        s.filter(hk_pred())
    } else {
        s
    }
}

/// What `select_urltest_candidates` returns: the first
/// `URLTEST_MAX_CANDIDATES` tags of the pool, or the direct outbound alone
/// where the pool is empty.
pub open spec fn select_spec(tags: Seq<Seq<char>>) -> Seq<Seq<char>> {
    let pool = candidate_pool(tags);
    if pool.len() == 0 {
        seq![TAG_DIRECT@]
    } else if pool.len() <= URLTEST_MAX_CANDIDATES {
        pool
    } else {
        pool.take(URLTEST_MAX_CANDIDATES as int)
    }
}

// ---------------------------------------------------------------------------
// Classification of tags
// ---------------------------------------------------------------------------

fn has_lit(v: &Vec<char>, lit: &str) -> (r: bool)
    ensures
        r == contains(v@, lit@),
{
    let p = chars_of(lit);
    assert(v@.subrange(0, v@.len() as int) =~= v@);
    contains_range(v, 0, v.len(), &p)
}

fn is_lit(v: &Vec<char>, lit: &str) -> (r: bool)
    ensures
        r == (v@ == lit@),
{
    let p = chars_of(lit);
    assert(v@.subrange(0, v@.len() as int) =~= v@);
    eq_range(v, 0, v.len(), &p)
}

fn placeholder_chars(v: &Vec<char>) -> (r: bool)
    ensures
        r == is_placeholder(v@),
{
    has_lit(v, "官网") || has_lit(v, "流量") || has_lit(v, "过期") || has_lit(v, "到期") || has_lit(
        v,
        "剩余",
    ) || has_lit(v, "到期时间") || has_lit(v, "yuntijiasu") || has_lit(v, "yunti.io")
}

fn hk_chars(v: &Vec<char>) -> (r: bool)
    ensures
        r == is_hk(v@),
{
    if has_lit(v, "香港") || has_lit(v, "🇭🇰") {
        return true;
    }
    let upper = upper_vec(v);
    has_lit(&upper, "HK")
}

fn residential_chars(v: &Vec<char>) -> (r: bool)
    ensures
        r == is_residential_tag(v@),
{
    has_lit(v, "家宽") || has_lit(v, "住宅") || has_lit(v, "IEPL") || has_lit(v, "IPLC")
}

fn rank_chars(v: &Vec<char>) -> (r: u8)
    ensures
        r == rank(v@),
{
    let hk = hk_chars(v);
    let res = residential_chars(v);
    if hk && res {
        0
    } else if hk {
        1
    } else if res {
        2
    } else {
        3
    }
}

fn reserved_chars(v: &Vec<char>) -> (r: bool)
    ensures
        r == is_reserved(v@),
{
    is_lit(v, TAG_DIRECT) || is_lit(v, TAG_AUTO) || is_lit(v, TAG_MANUAL) || is_lit(v, TAG_BLOCK)
        || is_lit(v, TAG_TELEGRAM) || is_lit(v, TAG_YOUTUBE) || is_lit(v, TAG_NETFLIX) || is_lit(
        v,
        TAG_OPENAI,
    ) || is_lit(v, TAG_GOOGLE)
}

/// Whether a node tag is a placeholder (a notice, not a node).
pub fn is_placeholder_node_tag(tag: &str) -> (r: bool)
    ensures
        r == is_placeholder(tag@),
{
    let v = chars_of(tag);
    placeholder_chars(&v)
}

/// Whether a node tag names a Hong Kong node.
pub fn is_hong_kong(tag: &str) -> (r: bool)
    ensures
        r == is_hk(tag@),
{
    let v = chars_of(tag);
    hk_chars(&v)
}

/// Whether a node tag names a residential or private-line node.
pub fn is_residential(tag: &str) -> (r: bool)
    ensures
        r == is_residential_tag(tag@),
{
    let v = chars_of(tag);
    residential_chars(&v)
}

/// Quality rank of a node tag: 0 for Hong Kong residential, 1 for other
/// Hong Kong, 2 for other residential, 3 for the rest.
pub fn quality_rank(tag: &str) -> (r: u8)
    ensures
        r == rank(tag@),
        r <= 3,
{
    let v = chars_of(tag);
    rank_chars(&v)
}

/// Whether a tag belongs to one of the configuration's own groups.
pub fn is_reserved_outbound_tag(tag: &str) -> (r: bool)
    ensures
        r == is_reserved(tag@),
{
    let v = chars_of(tag);
    reserved_chars(&v)
}

fn tag_before_exec(a: &String, b: &String) -> (r: bool)
    ensures
        r == tag_before(a@, b@),
{
    let va = chars_of(a.as_str());
    let vb = chars_of(b.as_str());
    let ra = rank_chars(&va);
    let rb = rank_chars(&vb);
    ra < rb || (ra == rb && lex_lt_vec(&va, &vb))
}

// ---------------------------------------------------------------------------
// Selection
// ---------------------------------------------------------------------------

proof fn lemma_views_push(v: Seq<String>, x: String)
    ensures
        views(v.push(x)) == views(v).push(x@),
{
    assert(views(v.push(x)) =~= views(v).push(x@));
}

proof fn lemma_filter_step(s: Seq<Seq<char>>, pred: spec_fn(Seq<char>) -> bool, i: int)
    requires
        0 <= i < s.len(),
    ensures
        s.take(i + 1).filter(pred) == if pred(s[i]) {
            s.take(i).filter(pred).push(s[i])
        } else {
            s.take(i).filter(pred)
        },
{
    reveal(Seq::filter);
    assert(s.take(i + 1).drop_last() =~= s.take(i));
}

/// Picks the nodes that the automatic group probes: reserved and
/// placeholder tags are dropped, the rest is ordered by quality rank and
/// name, only Hong Kong nodes are kept where there are any, and at most
/// `URLTEST_MAX_CANDIDATES` are returned; with nothing left, the direct
/// outbound alone.
pub fn select_urltest_candidates(tags: &[String]) -> (r: Vec<String>)
    ensures
        views(r@) == select_spec(views(tags@)),
{
    let ghost all = views(tags@);
    // usable tags, in input order
    let mut usable: Vec<String> = Vec::new();
    let n = tags.len();
    for i in 0..n
        invariant
            n == tags@.len(),
            all == views(tags@),
            views(usable@) == all.take(i as int).filter(usable_pred()),
    {
        let t = &tags[i];
        let v = chars_of(t.as_str());
        proof {
            lemma_filter_step(all, usable_pred(), i as int);
            lemma_views_push(usable@, *t);
        }
        if !reserved_chars(&v) && !placeholder_chars(&v) {
            usable.push(t.clone());
        }
    }
    assert(all.take(n as int) =~= all);
    let ghost u = views(usable@);
    // insertion sort by rank and name
    let mut sorted: Vec<String> = Vec::new();
    let m = usable.len();
    for i in 0..m
        invariant
            m == usable@.len(),
            u == views(usable@),
            views(sorted@) == sort_by(u.take(i as int), tag_order()),
    {
        let x = usable[i].clone();
        let mut p: usize = 0;
        while p < sorted.len() && !tag_before_exec(&x, &sorted[p])
            invariant
                p <= sorted@.len(),
                forall|j: int| 0 <= j < p ==> !tag_before(x@, #[trigger] views(sorted@)[j]),
            decreases sorted@.len() - p,
        {
            p += 1;
        }
        proof {
            lemma_insert_sorted_at(views(sorted@), x@, tag_order(), p as int);
            lemma_sort_by_step(u, tag_order(), i as int);
        }
        let ghost before_insert = sorted@;
        sorted.insert(p, x);
        assert(views(sorted@) =~= views(before_insert).insert(p as int, x@));
    }
    assert(u.take(m as int) =~= u);
    let ghost s = views(sorted@);
    assert(s == ranked_usable(all));
    // is there a Hong Kong node?
    let mut hk_found = false;
    let k = sorted.len();
    for i in 0..k
        invariant
            k == sorted@.len(),
            s == views(sorted@),
            hk_found <==> exists|j: int| 0 <= j < i && is_hk(#[trigger] s[j]),
    {
        let v = chars_of(sorted[i].as_str());
        assert(v@ == s[i as int]);
        if hk_chars(&v) {
            hk_found = true;
        }
    }
    let pool: Vec<String> = if hk_found {
        let mut hk: Vec<String> = Vec::new();
        for i in 0..k
            invariant
                k == sorted@.len(),
                s == views(sorted@),
                views(hk@) == s.take(i as int).filter(hk_pred()),
        {
            let t = &sorted[i];
            let v = chars_of(t.as_str());
            proof {
                lemma_filter_step(s, hk_pred(), i as int);
                lemma_views_push(hk@, *t);
            }
            if hk_chars(&v) {
                hk.push(t.clone());
            }
        }
        assert(s.take(k as int) =~= s);
        hk
    } else {
        sorted
    };
    assert(views(pool@) == candidate_pool(all));
    if pool.len() == 0 {
        let mut out: Vec<String> = Vec::new();
        out.push(String::from_str(TAG_DIRECT));
        assert(views(out@) =~= seq![TAG_DIRECT@]);
        return out;
    }
    let limit = if pool.len() <= URLTEST_MAX_CANDIDATES {
        pool.len()
    } else {
        URLTEST_MAX_CANDIDATES
    };
    let mut out: Vec<String> = Vec::new();
    for i in 0..limit
        invariant
            limit <= pool@.len(),
            views(out@) == views(pool@).take(i as int),
    {
        proof {
            lemma_views_push(out@, pool@[i as int]);
        }
        out.push(pool[i].clone());
        assert(views(pool@).take(i + 1) =~= views(pool@).take(i as int).push(pool@[i as int]@));
    }
    assert(views(pool@).take(pool@.len() as int) =~= views(pool@));
    out
}

// ---------------------------------------------------------------------------
// Laws of the selection
// ---------------------------------------------------------------------------

/// The candidate order is a strict order.
pub proof fn lemma_tag_order_strict()
    ensures
        strict_order(tag_order()),
{
    assert forall|a: Seq<char>| !#[trigger] tag_order()(a, a) by {
        lemma_lex_irreflexive(a);
    }
    assert forall|a: Seq<char>, b: Seq<char>, c: Seq<char>|
        #[trigger] tag_order()(a, b) && #[trigger] tag_order()(b, c) implies tag_order()(a, c) by {
        if rank(a) == rank(b) && rank(b) == rank(c) {
            lemma_lex_transitive(a, b, c);
        }
    }
}

/// The candidate order puts any two distinct tags one way or the other.
proof fn lemma_tag_order_total()
    ensures
        total_order(tag_order()),
{
    assert forall|a: Seq<char>, b: Seq<char>| a != b implies #[trigger] tag_order()(a, b)
        || tag_order()(b, a) by {
        lemma_lex_total(a, b);
    }
}

/// Elements of the pool: the usable tags of the input, restricted to Hong
/// Kong ones where a usable Hong Kong tag exists; and the pool is sorted.
proof fn lemma_pool(tags: Seq<Seq<char>>)
    ensures
        sorted_by(candidate_pool(tags), tag_order()),
        forall|x: Seq<char>| #[trigger]
            candidate_pool(tags).contains(x) <==> (tags.contains(x) && is_usable(x) && (
            has_usable_hk(tags) ==> is_hk(x))),
        candidate_pool(tags).len() == 0 <==> !has_usable(tags),
{
    let f = tags.filter(usable_pred());
    let s = ranked_usable(tags);
    lemma_filter_members(tags, usable_pred());
    lemma_sort_by_members(f, tag_order());
    lemma_tag_order_strict();
    lemma_sort_by_sorted(f, tag_order());
    lemma_filter_sorted(s, hk_pred(), tag_order());
    lemma_filter_members(s, hk_pred());
    assert(any_hk(s) <==> has_usable_hk(tags)) by {
        if any_hk(s) {
            let i = choose|i: int| 0 <= i < s.len() && is_hk(#[trigger] s[i]);
            assert(s.contains(s[i]));
            let k = choose|k: int| 0 <= k < tags.len() && tags[k] == s[i];
            assert(is_usable(tags[k]) && is_hk(tags[k]));
        }
        if has_usable_hk(tags) {
            let k = choose|k: int| 0 <= k < tags.len() && is_usable(#[trigger] tags[k]) && is_hk(
                tags[k],
            );
            assert(tags.contains(tags[k]));
            assert(s.contains(tags[k]));
        }
    }
    let pool = candidate_pool(tags);
    assert(pool.len() == 0 <==> !has_usable(tags)) by {
        if has_usable(tags) {
            let k = choose|k: int| 0 <= k < tags.len() && is_usable(#[trigger] tags[k]);
            if has_usable_hk(tags) {
                let h = choose|h: int| 0 <= h < tags.len() && is_usable(#[trigger] tags[h])
                    && is_hk(tags[h]);
                assert(tags.contains(tags[h]));
                assert(pool.contains(tags[h]));
            } else {
                assert(tags.contains(tags[k]));
                assert(pool.contains(tags[k]));
            }
        }
        if pool.len() > 0 {
            assert(pool.contains(pool[0]));
            let k = choose|k: int| 0 <= k < tags.len() && tags[k] == pool[0];
            assert(is_usable(tags[k]));
        }
    }
}

/// Some tag of `tags` is usable.
pub open spec fn has_usable(tags: Seq<Seq<char>>) -> bool {
    exists|i: int| 0 <= i < tags.len() && is_usable(#[trigger] tags[i])
}

/// Some tag of `tags` is a usable Hong Kong tag.
pub open spec fn has_usable_hk(tags: Seq<Seq<char>>) -> bool {
    exists|i: int| 0 <= i < tags.len() && is_usable(#[trigger] tags[i]) && is_hk(tags[i])
}

/// The selection is never empty and never exceeds `URLTEST_MAX_CANDIDATES`.
pub proof fn law_select_size(tags: Seq<Seq<char>>)
    ensures
        1 <= select_spec(tags).len() <= URLTEST_MAX_CANDIDATES,
{
}

/// The selection falls back to the direct outbound exactly when the input
/// holds no usable tag.
pub proof fn law_select_fallback(tags: Seq<Seq<char>>)
    ensures
        !has_usable(tags) ==> select_spec(tags) == seq![TAG_DIRECT@],
        has_usable(tags) ==> !select_spec(tags).contains(TAG_DIRECT@),
{
    lemma_pool(tags);
    if has_usable(tags) {
        let r = select_spec(tags);
        let pool = candidate_pool(tags);
        if r.contains(TAG_DIRECT@) {
            let i = choose|i: int| 0 <= i < r.len() && r[i] == TAG_DIRECT@;
            assert(pool[i] == r[i]);
            assert(pool.contains(TAG_DIRECT@));
        }
    }
}

/// Where the input holds a usable tag, every selected tag is a usable tag
/// of the input: no placeholder and no tag of the configuration's groups.
pub proof fn law_select_picks_usable(tags: Seq<Seq<char>>)
    ensures
        has_usable(tags) ==> forall|i: int|
            0 <= i < select_spec(tags).len() ==> is_usable(#[trigger] select_spec(tags)[i])
                && tags.contains(select_spec(tags)[i]),
{
    lemma_pool(tags);
    let r = select_spec(tags);
    let pool = candidate_pool(tags);
    if has_usable(tags) {
        assert forall|i: int| 0 <= i < r.len() implies is_usable(#[trigger] r[i]) && tags.contains(
            r[i],
        ) by {
            assert(r[i] == pool[i]);
            assert(pool.contains(pool[i]));
        }
    }
}

/// Where the input holds a usable Hong Kong tag, every selected tag is a
/// Hong Kong tag.
pub proof fn law_select_hong_kong_only(tags: Seq<Seq<char>>)
    ensures
        has_usable_hk(tags) ==> forall|i: int|
            0 <= i < select_spec(tags).len() ==> is_hk(#[trigger] select_spec(tags)[i]),
{
    lemma_pool(tags);
    let r = select_spec(tags);
    let pool = candidate_pool(tags);
    if has_usable_hk(tags) {
        assert(has_usable(tags));
        assert forall|i: int| 0 <= i < r.len() implies is_hk(#[trigger] r[i]) by {
            assert(r[i] == pool[i]);
            assert(pool.contains(pool[i]));
        }
    }
}

/// The selection is ordered by quality rank, then by name.
pub proof fn law_select_ordered(tags: Seq<Seq<char>>)
    ensures
        sorted_by(select_spec(tags), tag_order()),
        forall|i: int, j: int|
            0 <= i < j < select_spec(tags).len() ==> rank(#[trigger] select_spec(tags)[i]) <= rank(
                #[trigger] select_spec(tags)[j],
            ),
{
    lemma_pool(tags);
    let r = select_spec(tags);
    let pool = candidate_pool(tags);
    if pool.len() > 0 {
        assert forall|i: int, j: int| 0 <= i < j < r.len() implies !tag_order()(
            #[trigger] r[j],
            #[trigger] r[i],
        ) by {
            assert(r[i] == pool[i] && r[j] == pool[j]);
        }
    }
    assert forall|i: int, j: int| 0 <= i < j < r.len() implies rank(#[trigger] r[i]) <= rank(
        #[trigger] r[j],
    ) by {
        assert(!tag_order()(r[j], r[i]));
    }
}

/// The selection holds the best candidates: a usable tag of the input
/// (a Hong Kong one where the input has a usable Hong Kong tag) that is
/// left out only when the selection is full, and no selected tag comes
/// after it.
pub proof fn law_select_best(tags: Seq<Seq<char>>, x: Seq<char>)
    requires
        tags.contains(x),
        is_usable(x),
        has_usable_hk(tags) ==> is_hk(x),
        !select_spec(tags).contains(x),
    ensures
        select_spec(tags).len() == URLTEST_MAX_CANDIDATES,
        forall|i: int| 0 <= i < select_spec(tags).len() ==> !tag_before(x, #[trigger] select_spec(tags)[i]),
{
    lemma_pool(tags);
    let r = select_spec(tags);
    let pool = candidate_pool(tags);
    assert(pool.contains(x));
    let k = choose|k: int| 0 <= k < pool.len() && pool[k] == x;
    if pool.len() <= URLTEST_MAX_CANDIDATES {
        assert(r[k] == x);
    } else {
        if k < URLTEST_MAX_CANDIDATES {
            assert(r[k] == x);
        }
        assert forall|i: int| 0 <= i < r.len() implies !tag_before(x, #[trigger] r[i]) by {
            assert(r[i] == pool[i]);
            assert(!tag_order()(pool[k], pool[i]));
        }
    }
}

// ---------------------------------------------------------------------------
// The automatic group in the configuration
// ---------------------------------------------------------------------------

/// The string items of a JSON array, in order (`filter_map(as_str)`).
pub open spec fn string_items(items: Seq<SpecJson>) -> Seq<Seq<char>>
    decreases items.len(),
{
    if items.len() == 0 {
        seq![]
    } else {
        let rest = string_items(items.drop_last());
        match items.last() {
            SpecJson::Str(s) => rest.push(s),
            _ => rest,
        }
    }
}

/// A JSON array of strings.
pub open spec fn str_items(ts: Seq<Seq<char>>) -> Seq<SpecJson> {
    Seq::new(ts.len(), |i: int| SpecJson::Str(ts[i]))
}

/// The automatic group's definition.
pub open spec fn urltest_template_spec(url: Seq<char>, outbounds: Seq<SpecJson>) -> SpecJson {
    SpecJson::Object(
        seq![
            ("type"@, SpecJson::Str("urltest"@)),
            ("tag"@, SpecJson::Str(TAG_AUTO@)),
            ("outbounds"@, SpecJson::Array(outbounds)),
            ("interrupt_exist_connections"@, SpecJson::Bool(false)),
            ("idle_timeout"@, SpecJson::Str(URLTEST_IDLE_TIMEOUT@)),
            ("interval"@, SpecJson::Str(URLTEST_INTERVAL@)),
            ("tolerance"@, SpecJson::Number(SpecNumber::PosInt(URLTEST_TOLERANCE))),
            ("url"@, SpecJson::Str(url)),
        ],
    )
}

/// The object `e` with the stable url-test settings applied: fixed timing
/// settings, the test url where one is given, and the member list reduced
/// by `select_spec` where it holds strings.
pub open spec fn stability_spec(e: Seq<(Seq<char>, SpecJson)>, url: Seq<char>) -> Seq<
    (Seq<char>, SpecJson),
> {
    let e1 = obj_insert(
        obj_insert(
            obj_insert(
                obj_insert(e, "interrupt_exist_connections"@, SpecJson::Bool(false)),
                "idle_timeout"@,
                SpecJson::Str(URLTEST_IDLE_TIMEOUT@),
            ),
            "interval"@,
            SpecJson::Str(URLTEST_INTERVAL@),
        ),
        "tolerance"@,
        SpecJson::Number(SpecNumber::PosInt(URLTEST_TOLERANCE)),
    );
    let e2 = if url.len() > 0 {
        obj_insert(e1, "url"@, SpecJson::Str(url))
    } else {
        e1
    };
    match obj_get(e2, "outbounds"@) {
        Some(SpecJson::Array(items)) => {
            let tags = string_items(items);
            if tags.len() > 0 {
                obj_insert(e2, "outbounds"@, SpecJson::Array(str_items(select_spec(tags))))
            } else {
                e2
            }
        },
        _ => e2,
    }
}

fn json_str(s: &str) -> (v: JsonValue)
    ensures
        v.model() == SpecJson::Str(s@),
{
    JsonValue::String(String::from_str(s))
}

fn push_entry(entries: &mut Vec<(String, JsonValue)>, key: &str, value: JsonValue)
    ensures
        entries_model(final(entries)@) == entries_model(old(entries)@).push(
            (key@, value.model()),
        ),
{
    let ghost before = entries@;
    entries.push((String::from_str(key), value));
    assert(entries@.drop_last() =~= before);
}

/// The definition of the automatic group, probing `url`, over `outbounds`.
pub fn urltest_outbound_template(url: &str, outbounds: Vec<JsonValue>) -> (v: JsonValue)
    ensures
        v.model() == urltest_template_spec(url@, items_model(outbounds@)),
{
    let ghost members = items_model(outbounds@);
    let mut entries: Vec<(String, JsonValue)> = Vec::new();
    push_entry(&mut entries, "type", json_str("urltest"));
    push_entry(&mut entries, "tag", json_str(TAG_AUTO));
    push_entry(&mut entries, "outbounds", JsonValue::Array(outbounds));
    push_entry(&mut entries, "interrupt_exist_connections", JsonValue::Bool(false));
    push_entry(&mut entries, "idle_timeout", json_str(URLTEST_IDLE_TIMEOUT));
    push_entry(&mut entries, "interval", json_str(URLTEST_INTERVAL));
    push_entry(
        &mut entries,
        "tolerance",
        JsonValue::Number(JsonNumber::PosInt(URLTEST_TOLERANCE)),
    );
    push_entry(&mut entries, "url", json_str(url));
    let v = JsonValue::Object(JsonObject { entries });
    assert(entries_model(entries@) =~= match urltest_template_spec(url@, members) {
        SpecJson::Object(e) => e,
        _ => seq![],
    });
    v
}

/// Applies the stable url-test settings to the automatic group's object:
/// keeps connections when switching, tests every `URLTEST_INTERVAL`, stops
/// after `URLTEST_IDLE_TIMEOUT` idle, switches only beyond
/// `URLTEST_TOLERANCE`, sets the test `url` where one is given, and reduces
/// a list of member tags with `select_urltest_candidates`.
pub fn apply_urltest_stability_settings(obj: &mut JsonObject, url: &str)
    ensures
        final(obj).model() == stability_spec(old(obj).model(), url@),
{
    obj.insert(String::from_str("interrupt_exist_connections"), JsonValue::Bool(false));
    obj.insert(String::from_str("idle_timeout"), json_str(URLTEST_IDLE_TIMEOUT));
    obj.insert(String::from_str("interval"), json_str(URLTEST_INTERVAL));
    obj.insert(
        String::from_str("tolerance"),
        JsonValue::Number(JsonNumber::PosInt(URLTEST_TOLERANCE)),
    );
    if !url.is_empty() {
        obj.insert(String::from_str("url"), json_str(url));
    }
    let ghost e2 = obj.model();
    let mut tags: Vec<String> = Vec::new();
    let mut is_array = false;
    match obj.get("outbounds") {
        Some(JsonValue::Array(members)) => {
            is_array = true;
            let ghost items = items_model(members@);
            proof {
                lemma_items_model(members@);
            }
            let n = members.len();
            for i in 0..n
                invariant
                    n == members@.len(),
                    items == items_model(members@),
                    items.len() == n,
                    forall|j: int| 0 <= j < n ==> #[trigger] items[j] == members@[j].model(),
                    views(tags@) == string_items(items.take(i as int)),
            {
                proof {
                    assert(items.take(i + 1).drop_last() =~= items.take(i as int));
                    assert(items.take(i + 1).last() == items[i as int]);
                }
                match members[i].as_str() {
                    Some(t) => {
                        let owned = String::from_str(t);
                        proof {
                            lemma_views_push(tags@, owned);
                        }
                        tags.push(owned);
                    },
                    None => {},
                }
            }
            assert(items.take(n as int) =~= items);
        },
        _ => {},
    }
    if is_array && tags.len() > 0 {
        let selected = select_urltest_candidates(tags.as_slice());
        let mut out: Vec<JsonValue> = Vec::new();
        let k = selected.len();
        for i in 0..k
            invariant
                k == selected@.len(),
                items_model(out@) == str_items(views(selected@).take(i as int)),
        {
            let ghost before = out@;
            out.push(json_str(selected[i].as_str()));
            assert(out@.drop_last() =~= before);
            assert(str_items(views(selected@).take(i + 1)) =~= str_items(
                views(selected@).take(i as int),
            ).push(SpecJson::Str(selected@[i as int]@)));
        }
        assert(views(selected@).take(k as int) =~= views(selected@));
        obj.insert(String::from_str("outbounds"), JsonValue::Array(out));
    }
}

/// The selection depends only on which tags the input holds, and how
/// often, not on their order.
pub proof fn law_select_order_independent(tags: Seq<Seq<char>>, other: Seq<Seq<char>>)
    requires
        other.to_multiset() == tags.to_multiset(),
    ensures
        select_spec(other) == select_spec(tags),
{
    let f1 = tags.filter(usable_pred());
    let f2 = other.filter(usable_pred());
    lemma_filter_multiset(tags, other, usable_pred());
    lemma_sort_by_permutation(f1, tag_order());
    lemma_sort_by_permutation(f2, tag_order());
    lemma_tag_order_strict();
    lemma_tag_order_total();
    lemma_sort_by_sorted(f1, tag_order());
    lemma_sort_by_sorted(f2, tag_order());
    lemma_sorted_unique(sort_by(f2, tag_order()), sort_by(f1, tag_order()), tag_order());
}

/// Selecting from a selection gives it back unchanged.
pub proof fn law_select_idempotent(tags: Seq<Seq<char>>)
    ensures
        select_spec(select_spec(tags)) == select_spec(tags),
{
    let r = select_spec(tags);
    lemma_pool(tags);
    lemma_pool(r);
    law_select_size(tags);
    if !has_usable(tags) {
        assert(r == seq![TAG_DIRECT@]);
        assert(!is_usable(r[0]));
        assert(!has_usable(r));
    } else {
        law_select_picks_usable(tags);
        law_select_ordered(tags);
        law_select_hong_kong_only(tags);
        lemma_tag_order_strict();
        lemma_tag_order_total();
        lemma_filter_all(r, usable_pred());
        lemma_sort_by_sorted_fixed(r, tag_order());
        assert(ranked_usable(r) == r);
        if has_usable_hk(tags) {
            assert(is_hk(r[0]));
            assert(any_hk(r));
            lemma_filter_all(r, hk_pred());
        } else {
            assert(!any_hk(r)) by {
                if any_hk(r) {
                    let i = choose|i: int| 0 <= i < r.len() && is_hk(#[trigger] r[i]);
                    assert(is_usable(r[i]) && tags.contains(r[i]));
                    let k = choose|k: int| 0 <= k < tags.len() && tags[k] == r[i];
                    assert(is_usable(tags[k]) && is_hk(tags[k]));
                }
            }
        }
        assert(candidate_pool(r) == r);
    }
}

/// Where `p` occurs in `s`, its first character is a character of `s`.
proof fn lemma_contains_first_char(s: Seq<char>, p: Seq<char>)
    requires
        contains(s, p),
        p.len() > 0,
    ensures
        s.contains(p[0]),
{
    let i = choose|i: int| occurs_at(s, p, i);
    assert(s.subrange(i, i + p.len())[0] == s[i]);
}

/// A tag that carries one of the subscription notice markers (web site,
/// traffic, expiry, remaining, the provider's domains) is a placeholder:
/// it is never probed and never selected, whatever the other tags are.
pub proof fn law_notice_markers_are_placeholders(t: Seq<char>, tags: Seq<Seq<char>>)
    requires
        contains(t, "官网"@) || contains(t, "流量"@) || contains(t, "过期"@) || contains(
            t,
            "到期"@,
        ) || contains(t, "剩余"@) || contains(t, "到期时间"@) || contains(t, "yuntijiasu"@)
            || contains(t, "yunti.io"@),
    ensures
        is_placeholder(t),
        !is_usable(t),
        !select_spec(tags).contains(t),
{
    let r = select_spec(tags);
    law_select_picks_usable(tags);
    law_select_fallback(tags);
    if r.contains(t) {
        let i = choose|i: int| 0 <= i < r.len() && r[i] == t;
        if has_usable(tags) {
            assert(is_usable(r[i]));
        } else {
            assert(t == TAG_DIRECT@);
            reveal_strlit("direct");
            reveal_strlit("官网");
            reveal_strlit("流量");
            reveal_strlit("过期");
            reveal_strlit("到期");
            reveal_strlit("剩余");
            reveal_strlit("到期时间");
            reveal_strlit("yuntijiasu");
            reveal_strlit("yunti.io");
            let d = TAG_DIRECT@;
            assert(forall|c: char| d.contains(c) ==> c == 'd' || c == 'i' || c == 'r' || c == 'e'
                || c == 'c' || c == 't');
            if contains(t, "官网"@) {
                lemma_contains_first_char(t, "官网"@);
            } else if contains(t, "流量"@) {
                lemma_contains_first_char(t, "流量"@);
            } else if contains(t, "过期"@) {
                lemma_contains_first_char(t, "过期"@);
            } else if contains(t, "到期"@) {
                lemma_contains_first_char(t, "到期"@);
            } else if contains(t, "剩余"@) {
                lemma_contains_first_char(t, "剩余"@);
            } else if contains(t, "到期时间"@) {
                lemma_contains_first_char(t, "到期时间"@);
            } else if contains(t, "yuntijiasu"@) {
                lemma_contains_first_char(t, "yuntijiasu"@);
            } else {
                lemma_contains_first_char(t, "yunti.io"@);
            }
        }
    }
}

/// A tag named as a Hong Kong node: `香港`, the Hong Kong flag, or `HK` in
/// any ASCII case.
pub open spec fn hk_marked(t: Seq<char>) -> bool {
    contains(t, "香港"@) || contains(t, "🇭🇰"@) || contains(ascii_upper(t), "HK"@)
}

/// A tag named as a residential or private line: `家宽`, `住宅`, `IEPL` or
/// `IPLC`.
pub open spec fn residential_marked(t: Seq<char>) -> bool {
    contains(t, "家宽"@) || contains(t, "住宅"@) || contains(t, "IEPL"@) || contains(t, "IPLC"@)
}

/// The candidate order by names: Hong Kong residential lines come before
/// every other tag, Hong Kong tags before tags of other regions, and
/// residential lines of other regions before their plain tags.
pub proof fn law_candidate_order_by_markers(a: Seq<char>, b: Seq<char>)
    ensures
        hk_marked(a) && residential_marked(a) && !(hk_marked(b) && residential_marked(b))
            ==> tag_before(a, b),
        hk_marked(a) && !hk_marked(b) ==> tag_before(a, b),
        residential_marked(a) && !hk_marked(a) && !hk_marked(b) && !residential_marked(b)
            ==> tag_before(a, b),
{
}

/// The tags of the configuration's own outbounds and groups are never
/// probed.
pub proof fn law_own_groups_never_probed(t: Seq<char>)
    requires
        t == "direct"@ || t == "自动选择"@ || t == "手动切换"@ || t == "block"@ || t == "Telegram"@
            || t == "YouTube"@ || t == "Netflix"@ || t == "OpenAI"@ || t == "Google"@,
    ensures
        !is_usable(t),
{
}

/// The automatic group probes at most eight tags.
pub proof fn law_select_at_most_eight(tags: Seq<Seq<char>>)
    ensures
        select_spec(tags).len() <= 8,
{
}

} // verus!
