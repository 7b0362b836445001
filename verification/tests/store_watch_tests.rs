use kube_eye_export_server::json::parse_text;
use kube_eye_export_server::loader::load_sources;
use kube_eye_export_server::loader::merge_values;
use kube_eye_export_server::store::ConfigStore;
use kube_eye_export_server::value::value_eq;
use kube_eye_export_server::watch::on_change_event;
use kube_eye_export_server::watch::on_reload_done;
use kube_eye_export_server::watch::plan_watches;
use kube_eye_export_server::watch::reload_step;
use kube_eye_export_server::watch::watcher_idle;
use kube_eye_export_server::watch::ReloadReport;

fn sources(texts: &[&str]) -> Vec<Option<String>> {
    texts.iter().map(|t| Some(t.to_string())).collect()
}

#[test]
fn publish_then_read_returns_that_snapshot() {
    let first = parse_text(r#"{"a": 1}"#).unwrap();
    let again = parse_text(r#"{"a": 1}"#).unwrap();
    let store = ConfigStore::new(first);
    assert!(value_eq(&store.read(), &again));

    let mut store = store;
    let second = parse_text(r#"{"a": 2}"#).unwrap();
    store.publish(second);
    let expected = parse_text(r#"{"a": 2}"#).unwrap();
    assert!(value_eq(&store.read(), &expected));
    assert!(!value_eq(&store.read(), &again));
}

#[test]
fn bad_edit_keeps_previous_snapshot() {
    let good = parse_text(r#"{"a": 1}"#).unwrap();
    let mut store = ConfigStore::new(good);

    let report = reload_step(&mut store, &sources(&[r#"{"a": 1"#]));
    assert!(matches!(report, ReloadReport::Rejected { .. }));

    let expected = parse_text(r#"{"a": 1}"#).unwrap();
    assert!(value_eq(&store.read(), &expected));
}

#[test]
fn good_edit_publishes_merged_snapshot() {
    let seed = parse_text("null").unwrap();
    let mut store = ConfigStore::new(seed);

    let report = reload_step(&mut store, &sources(&[r#"{"a": 1, "b": 1}"#, r#"{"b": 2}"#]));
    assert_eq!(report, ReloadReport::Published);

    let expected = parse_text(r#"{"a": 1, "b": 2}"#).unwrap();
    assert!(value_eq(&store.read(), &expected));
}

#[test]
fn reload_of_unchanged_sources_is_deep_equal() {
    let layered = [r#"{"a": [1, {"x": true}]}"#, r#"{"b": "two"}"#];
    let first = load_sources(&sources(&layered)).unwrap();
    let second = load_sources(&sources(&layered)).unwrap();
    assert!(value_eq(&first, &second));
}

#[test]
fn merge_overrides_at_top_level() {
    let base = parse_text(r#"{"a": 1, "b": 1}"#).unwrap();
    let over = parse_text(r#"{"b": 2, "c": 3}"#).unwrap();
    let merged = merge_values(base, over);
    let expected = parse_text(r#"{"a": 1, "b": 2, "c": 3}"#).unwrap();
    assert!(value_eq(&merged, &expected));
}

#[test]
fn merge_replaces_non_objects_whole() {
    let base = parse_text(r#"{"a": {"deep": 1}}"#).unwrap();
    let over = parse_text(r#"{"a": 2}"#).unwrap();
    let merged = merge_values(base, over);
    let expected = parse_text(r#"{"a": 2}"#).unwrap();
    assert!(value_eq(&merged, &expected));

    let base = parse_text("[1, 2]").unwrap();
    let over = parse_text(r#"{"a": 1}"#).unwrap();
    let merged = merge_values(base, over);
    let expected = parse_text(r#"{"a": 1}"#).unwrap();
    assert!(value_eq(&merged, &expected));
}

#[test]
fn missing_sources_are_skipped() {
    let layered = vec![None, Some(r#"{"a": 1}"#.to_string()), None];
    let loaded = load_sources(&layered).unwrap();
    let expected = parse_text(r#"{"a": 1}"#).unwrap();
    assert!(value_eq(&loaded, &expected));
}

#[test]
fn load_of_no_sources_is_empty_object() {
    let loaded = load_sources(&Vec::new()).unwrap();
    let expected = parse_text("{}").unwrap();
    assert!(value_eq(&loaded, &expected));
}

#[test]
fn load_error_names_the_offending_source() {
    let layered = sources(&[r#"{"a": 1}"#, "{, nope"]);
    let err = load_sources(&layered).unwrap_err();
    assert_eq!(err.source, 1);
}

#[test]
fn missing_watch_path_is_skipped_with_warning() {
    let paths = vec![
        ("configs".to_string(), true),
        ("missing.json".to_string(), false),
    ];
    let (watched, skipped) = plan_watches(&paths);
    assert_eq!(watched, vec!["configs".to_string()]);
    assert_eq!(skipped, vec!["missing.json".to_string()]);
}

#[test]
fn watcher_coalesces_bursts_into_one_pass() {
    let idle = watcher_idle();

    let (busy, start_now) = on_change_event(idle);
    assert!(start_now);

    let (busy, start_again) = on_change_event(busy);
    assert!(!start_again);
    let (busy, start_third) = on_change_event(busy);
    assert!(!start_third);

    let (busy, rerun) = on_reload_done(busy);
    assert!(rerun);

    let (idle_again, rerun_again) = on_reload_done(busy);
    assert!(!rerun_again);
    assert!(!idle_again.reloading);
}
