use bangs::update::{is_newer, menu_label, release_from_json, release_version, UpdateState};

#[test]
fn compares_numerically() {
    assert!(is_newer("0.10.0", "0.9.0"));
    assert!(is_newer("1.0.0", "0.99.99"));
    assert!(is_newer("0.1.1", "0.1.0"));
    assert!(!is_newer("0.1.0", "0.1.0"));
    assert!(!is_newer("0.1.0", "0.2.0"));
    assert!(!is_newer("0.1.0-beta", "0.1.0"));
}

#[test]
fn missing_parts_count_as_zero() {
    assert!(is_newer("1.2", "1.1.9"));
    assert!(!is_newer("1.2", "1.2.0"));
    assert!(is_newer("2.x.1", "1.9.9"));
}

#[test]
fn menu_label_says_what_is_waiting() {
    assert_eq!(menu_label(Some("0.3.0"), "0.2.0"), "有新版本 v0.3.0 — 去下载");
    assert_eq!(menu_label(Some("0.2.0"), "0.2.0"), "已是最新 v0.2.0");
    assert_eq!(menu_label(None, "0.2.0"), "版本 v0.2.0");
}

#[test]
fn release_tags_lose_their_v() {
    assert_eq!(release_version("v1.2.3"), "1.2.3");
    assert_eq!(release_version("vv1.0"), "1.0");
    assert_eq!(release_version("1.0"), "1.0");
    assert_eq!(release_from_json(r#"{"tag_name":"v0.4.1","name":"x"}"#).as_deref(), Some("0.4.1"));
    assert_eq!(release_from_json(r#"{"message":"Not Found"}"#), None);
    assert_eq!(release_from_json("not json"), None);
}

#[test]
fn a_failed_check_changes_nothing() {
    let mut state = UpdateState::new();
    assert!(state.record(Some("0.3.0".into())));
    assert!(!state.record(None));
    assert_eq!(state.latest().as_deref(), Some("0.3.0"));
    assert!(!state.record(Some("0.3.0".into())));
    assert!(state.record(Some("0.4.0".into())));
    assert_eq!(state.latest().as_deref(), Some("0.4.0"));
    state.set(None);
    assert_eq!(state.latest(), None);
}

#[test]
fn newer_is_a_strict_order() {
    for v in ["0.1.0", "1.2", "2.0.0-beta", "x.y"] {
        assert!(!is_newer(v, v));
    }
    assert!(is_newer("1.10", "1.9.9"));
    assert!(!is_newer("1.9.9", "1.10"));
}
