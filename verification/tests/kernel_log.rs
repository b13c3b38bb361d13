use pika::json::{JsonObject, JsonValue};
use pika::kernel_log::{ensure_kernel_log_output, kernel_log_output_path};

#[test]
fn generated_log_should_write_to_kernel_work_dir_file() {
    let mut config = JsonObject::new();
    ensure_kernel_log_output(&mut config, "/tmp/pika-kernel");
    let log = config
        .get("log")
        .and_then(|v| v.as_object())
        .expect("log 配置应存在");

    assert_eq!(log.get("disabled").and_then(|v| v.as_bool()), Some(false));
    assert_eq!(log.get("level").and_then(|v| v.as_str()), Some("info"));
    assert_eq!(log.get("timestamp").and_then(|v| v.as_bool()), Some(true));

    let output = log
        .get("output")
        .and_then(|v| v.as_str())
        .expect("log.output 应存在");
    assert!(
        output.ends_with("sing-box.log"),
        "log.output 应指向 sing-box.log: {output}"
    );
}

#[test]
fn log_path_joins_work_dir() {
    let p = kernel_log_output_path("/var/lib/pika");
    assert!(p.starts_with("/var/lib/pika"));
    assert!(p.ends_with("sing-box.log"));
    assert_eq!(p.chars().count(), "/var/lib/pika".chars().count() + 1 + "sing-box.log".len());
    assert_eq!(kernel_log_output_path(""), "sing-box.log");
}

#[test]
fn existing_log_settings_are_kept_and_non_objects_replaced() {
    let mut log = JsonObject::new();
    log.insert("level".to_string(), JsonValue::String("debug".to_string()));
    log.insert("output".to_string(), JsonValue::String("/elsewhere".to_string()));
    let mut config = JsonObject::new();
    config.insert("dns".to_string(), JsonValue::Null);
    config.insert("log".to_string(), JsonValue::Object(log));
    ensure_kernel_log_output(&mut config, "/w");
    let log = config.get("log").and_then(|v| v.as_object()).unwrap();
    assert_eq!(log.get("level").and_then(|v| v.as_str()), Some("debug"));
    assert_eq!(log.get("disabled").and_then(|v| v.as_bool()), Some(false));
    assert!(log.get("output").and_then(|v| v.as_str()).unwrap().ends_with("sing-box.log"));
    // the log section keeps its place after "dns"
    assert_eq!(config.entries[0].0, "dns");
    assert_eq!(config.entries[1].0, "log");

    let mut config = JsonObject::new();
    config.insert("log".to_string(), JsonValue::Bool(true));
    ensure_kernel_log_output(&mut config, "/w");
    let log = config.get("log").and_then(|v| v.as_object()).unwrap();
    assert_eq!(log.get("timestamp").and_then(|v| v.as_bool()), Some(true));
    assert_eq!(log.len(), 4);
}

#[test]
fn ensuring_twice_changes_nothing_more() {
    let mut config = JsonObject::new();
    ensure_kernel_log_output(&mut config, "/w");
    let once = format!("{:?}", config.entries.iter().map(|e| e.0.clone()).collect::<Vec<_>>());
    let log_len = config.get("log").and_then(|v| v.as_object()).unwrap().len();
    ensure_kernel_log_output(&mut config, "/w");
    let twice = format!("{:?}", config.entries.iter().map(|e| e.0.clone()).collect::<Vec<_>>());
    assert_eq!(once, twice);
    assert_eq!(config.get("log").and_then(|v| v.as_object()).unwrap().len(), log_len);
}

#[test]
fn log_path_adds_no_second_separator() {
    assert_eq!(kernel_log_output_path("/var/lib/pika/"), "/var/lib/pika/sing-box.log");
    assert_eq!(kernel_log_output_path("relative"), format!("relative{}sing-box.log", std::path::MAIN_SEPARATOR));
}

#[test]
fn log_path_ends_with_file_name_under_verbatim_prefix() {
    let p = kernel_log_output_path(r"\\?\C:\work\.");
    assert!(p.ends_with("sing-box.log"), "{p}");
}
