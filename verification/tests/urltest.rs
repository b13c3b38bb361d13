use pika::common::{
    TAG_AUTO, TAG_DIRECT, URLTEST_IDLE_TIMEOUT, URLTEST_INTERVAL, URLTEST_MAX_CANDIDATES,
    URLTEST_TOLERANCE,
};
use pika::json::{JsonObject, JsonValue};
use pika::urltest::{
    apply_urltest_stability_settings, is_hong_kong, is_placeholder_node_tag,
    is_reserved_outbound_tag, is_residential, quality_rank, select_urltest_candidates,
    urltest_outbound_template,
};

fn strings(tags: &[&str]) -> Vec<String> {
    tags.iter().map(|t| t.to_string()).collect()
}

fn string_array(tags: &[&str]) -> JsonValue {
    JsonValue::Array(tags.iter().map(|t| JsonValue::String(t.to_string())).collect())
}

#[test]
fn placeholder_node_tags_should_be_detected() {
    assert!(is_placeholder_node_tag("PRO-B-官网yuntijiasu.com|v202605"));
    assert!(is_placeholder_node_tag("剩余流量 128GB"));
    assert!(!is_placeholder_node_tag("🇭🇰 PRO-A-香港-HK07-家宽|v202605"));
}

#[test]
fn urltest_candidates_prefer_hk_residential_and_cap_size() {
    let tags: Vec<String> = [
        "🇩🇪 德国-DE02【优化】",
        "🇺🇸 美国-US01【优化】",
        "🇭🇰 PRO-A-香港-HK03|v202605",
        "🇭🇰 PRO-A-香港-HK07-家宽|v202605",
        "🇭🇰 PRO-A-香港-HK09-家宽|v202605",
        "🇭🇰 PRO-A-香港-HK10-家宽|v202605",
        "🇭🇰 旗舰-香港-HK05-家宽|v202605",
        "🇹🇼 PRO-B-台湾-TW01|v202605",
        "PRO-B-官网yuntijiasu.com|v202605",
        "🇯🇵 PRO-C-日本-JP01|v202605",
        "🇸🇬 PRO-F-新加坡-SG01|v202605",
        "🇰🇷 PRO-E-韩国-KR01|v202605",
        "🇬🇧 英国-UK01",
        "🇭🇰 轻量-香港-HK03|v202605",
    ]
    .into_iter()
    .map(str::to_string)
    .collect();

    let picked = select_urltest_candidates(&tags);
    assert!(picked.len() <= URLTEST_MAX_CANDIDATES);
    assert_eq!(picked.len(), 6);
    assert!(!picked.iter().any(|tag| tag.contains("官网")));
    assert!(
        picked.iter().all(|tag| tag.contains("香港")),
        "自动组应只留香港: {picked:?}"
    );
    assert!(
        picked.iter().take(4).all(|tag| tag.contains("家宽")),
        "前几条应是香港家宽: {picked:?}"
    );
    assert!(!picked.iter().any(|tag| tag.contains("台湾") || tag.contains("德国")));
}

#[test]
fn apply_urltest_stability_settings_should_shrink_bloated_group() {
    let mut obj = JsonObject::new();
    obj.insert(
        "outbounds".to_string(),
        string_array(&[
            "🇩🇪 德国-DE02【优化】",
            "🇺🇸 美国-US01【优化】",
            "🇭🇰 PRO-A-香港-HK07-家宽|v202605",
            "🇹🇼 PRO-B-台湾-TW01|v202605",
            "PRO-B-官网yuntijiasu.com|v202605",
            "🇯🇵 PRO-C-日本-JP01|v202605",
        ]),
    );

    apply_urltest_stability_settings(&mut obj, "http://cp.cloudflare.com/generate_204");

    assert_eq!(obj.get("interval").and_then(|v| v.as_str()), Some(URLTEST_INTERVAL));
    assert_eq!(obj.get("idle_timeout").and_then(|v| v.as_str()), Some(URLTEST_IDLE_TIMEOUT));
    assert_eq!(obj.get("tolerance").and_then(|v| v.as_u64()), Some(URLTEST_TOLERANCE));
    assert_eq!(
        obj.get("interrupt_exist_connections").and_then(|v| v.as_bool()),
        Some(false)
    );
    let members = obj
        .get("outbounds")
        .and_then(|v| v.as_array())
        .expect("urltest outbounds");
    assert!(members.len() <= URLTEST_MAX_CANDIDATES);
    assert!(!members.iter().any(|v| v.as_str().unwrap_or("").contains("官网")));
    assert!(members.iter().any(|v| v.as_str().unwrap_or("").contains("香港")));
}

#[test]
fn exact_selection_is_sorted_by_rank_then_name() {
    let tags = strings(&["HK-b", "香港 A", "hk-a 家宽", "香港 IEPL", "US 1"]);
    let picked = select_urltest_candidates(&tags);
    // rank 0 first (sorted by name), then rank 1 (sorted by name)
    assert_eq!(picked, strings(&["hk-a 家宽", "香港 IEPL", "HK-b", "香港 A"]));
}

#[test]
fn selection_keeps_other_regions_when_no_hong_kong() {
    let tags = strings(&["US 2", "JP 家宽", "US 1"]);
    let picked = select_urltest_candidates(&tags);
    assert_eq!(picked, strings(&["JP 家宽", "US 1", "US 2"]));
}

#[test]
fn selection_is_capped_at_max_candidates() {
    let tags: Vec<String> = (0..20).map(|i| format!("HK node {i:02}")).collect();
    let picked = select_urltest_candidates(&tags);
    assert_eq!(picked.len(), URLTEST_MAX_CANDIDATES);
    let expected: Vec<String> = (0..8).map(|i| format!("HK node {i:02}")).collect();
    assert_eq!(picked, expected);
}

#[test]
fn selection_falls_back_to_direct() {
    assert_eq!(select_urltest_candidates(&[]), strings(&[TAG_DIRECT]));
    let tags = strings(&[TAG_DIRECT, TAG_AUTO, "剩余流量 1GB", "到期时间 2026-01-01"]);
    assert_eq!(select_urltest_candidates(&tags), strings(&[TAG_DIRECT]));
}

#[test]
fn classification_of_tags() {
    assert!(is_hong_kong("hk01"));
    assert!(is_hong_kong("🇭🇰 node"));
    assert!(is_hong_kong("香港"));
    assert!(!is_hong_kong("Tokyo"));
    assert!(is_residential("x IPLC y"));
    assert!(is_residential("住宅"));
    assert!(!is_residential("iplc"));
    assert_eq!(quality_rank("HK 家宽"), 0);
    assert_eq!(quality_rank("HK"), 1);
    assert_eq!(quality_rank("JP IEPL"), 2);
    assert_eq!(quality_rank("JP"), 3);
    assert!(is_reserved_outbound_tag("direct"));
    assert!(is_reserved_outbound_tag("YouTube"));
    assert!(!is_reserved_outbound_tag("Direct"));
    assert!(is_placeholder_node_tag("官网: yunti.io"));
    assert!(is_placeholder_node_tag("过期"));
}

#[test]
fn template_holds_the_group_settings() {
    let v = urltest_outbound_template("http://t/204", vec![JsonValue::String("a".to_string())]);
    assert_eq!(v.get("type").and_then(|x| x.as_str()), Some("urltest"));
    assert_eq!(v.get("tag").and_then(|x| x.as_str()), Some(TAG_AUTO));
    assert_eq!(v.get("interval").and_then(|x| x.as_str()), Some("5m"));
    assert_eq!(v.get("idle_timeout").and_then(|x| x.as_str()), Some("30m"));
    assert_eq!(v.get("tolerance").and_then(|x| x.as_u64()), Some(400));
    assert_eq!(v.get("url").and_then(|x| x.as_str()), Some("http://t/204"));
    assert_eq!(v.get("interrupt_exist_connections").and_then(|x| x.as_bool()), Some(false));
    assert_eq!(v.get("outbounds").and_then(|x| x.as_array()).map(|a| a.len()), Some(1));
}

#[test]
fn stability_settings_keep_url_when_empty_and_non_string_members() {
    let mut obj = JsonObject::new();
    obj.insert("url".to_string(), JsonValue::String("http://keep".to_string()));
    obj.insert("outbounds".to_string(), JsonValue::Array(vec![JsonValue::Bool(true)]));
    apply_urltest_stability_settings(&mut obj, "");
    assert_eq!(obj.get("url").and_then(|v| v.as_str()), Some("http://keep"));
    let members = obj.get("outbounds").and_then(|v| v.as_array()).unwrap();
    assert_eq!(members.len(), 1);
    assert_eq!(members[0].as_bool(), Some(true));
}

#[test]
fn selection_ignores_input_order() {
    let tags = strings(&[
        "🇭🇰 香港-HK02",
        "🇺🇸 美国-US01",
        "🇭🇰 PRO-A-香港-HK07-家宽",
        "剩余流量 128GB",
        "🇭🇰 香港-HK01",
        "🇭🇰 香港-HK02",
    ]);
    let mut reversed = tags.clone();
    reversed.reverse();
    let mut rotated = tags.clone();
    rotated.rotate_left(2);
    let expected = select_urltest_candidates(&tags);
    assert_eq!(select_urltest_candidates(&reversed), expected);
    assert_eq!(select_urltest_candidates(&rotated), expected);
}

#[test]
fn selecting_from_a_selection_changes_nothing() {
    for tags in [
        strings(&["🇭🇰 香港-HK02", "🇯🇵 日本-JP01", "🇭🇰 香港-HK01-IEPL"]),
        strings(&["🇯🇵 日本-JP01", "🇺🇸 美国-US01", "🇸🇬 新加坡-SG01-家宽"]),
        strings(&["官网 yuntijiasu.com", TAG_AUTO]),
        (0..20).map(|i| format!("🇭🇰 香港-HK{:02}", i)).collect::<Vec<String>>(),
    ] {
        let once = select_urltest_candidates(&tags);
        assert_eq!(select_urltest_candidates(&once), once);
    }
}
