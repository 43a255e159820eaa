use rusty_stern::settings::{Settings, Update};

fn base_settings() -> Settings {
    Settings {
        pod_search: String::from(".+"),
        kubeconfig: String::new(),
        namespaces: String::new(),
        previous: false,
        since_seconds: None,
        tail_lines: None,
        timestamps: false,
        loop_pause: 2,
        hue_intervals: String::from("0-359"),
        color_saturation: 100,
        color_lightness: 50,
        filter: String::new(),
        inv_filter: String::new(),
        replace_pattern: String::new(),
        replace_value: String::new(),
    }
}

#[test]
fn default_settings_validate() {
    let v = base_settings().to_validated().unwrap();
    assert!(v.kubeconfig.is_none());
    assert!(v.namespaces.is_empty());
    assert_eq!(v.hue_intervals.len(), 1);
    assert_eq!(v.hue_intervals[0].start.value, 0);
    assert_eq!(v.hue_intervals[0].end.value, 359);
    assert_eq!(v.color_saturation.value, 100);
    assert_eq!(v.color_lightness.value, 50);
    assert!(v.filter.is_none());
    assert!(v.inv_filter.is_none());
    assert!(v.replace.is_none());
}

#[test]
fn namespaces_split_on_commas() {
    let mut raw = base_settings();
    raw.namespaces = String::from("dev,prod");
    let v = raw.to_validated().unwrap();
    assert_eq!(v.namespaces, vec![String::from("dev"), String::from("prod")]);
}

#[test]
fn bad_pod_search_is_rejected() {
    let mut raw = base_settings();
    raw.pod_search = String::from("(");
    assert!(raw.to_validated().is_err());
}

#[test]
fn bad_filter_is_rejected() {
    let mut raw = base_settings();
    raw.filter = String::from("[");
    assert!(raw.to_validated().is_err());
}

#[test]
fn out_of_range_saturation_is_rejected() {
    let mut raw = base_settings();
    raw.color_saturation = 101;
    assert!(raw.to_validated().is_err());
}

#[test]
fn out_of_range_lightness_is_rejected() {
    let mut raw = base_settings();
    raw.color_lightness = 102;
    assert!(raw.to_validated().is_err());
}

#[test]
fn hue_intervals_parse_in_order() {
    let mut raw = base_settings();
    raw.hue_intervals = String::from("0-180,280-359");
    let intervals = raw.get_hue_intervals().unwrap();
    assert_eq!(intervals.len(), 2);
    assert_eq!(intervals[0].start.value, 0);
    assert_eq!(intervals[0].end.value, 180);
    assert_eq!(intervals[1].start.value, 280);
    assert_eq!(intervals[1].end.value, 359);
}

#[test]
fn bad_hue_interval_is_rejected() {
    let mut raw = base_settings();
    raw.hue_intervals = String::from("0-180,300-200");
    assert!(raw.get_hue_intervals().is_err());
    assert!(raw.to_validated().is_err());
}

#[test]
fn replace_needs_both_pattern_and_value() {
    let mut raw = base_settings();
    raw.replace_pattern = String::from("a+");
    let v = raw.to_validated().unwrap();
    assert!(v.replace.is_none());
    let mut raw = base_settings();
    raw.replace_pattern = String::from("a+");
    raw.replace_value = String::from("b");
    let v = raw.to_validated().unwrap();
    assert!(v.replace.is_some());
    assert_eq!(v.replace.unwrap().value, "b");
}

#[test]
fn previous_lines_wanted_when_since_or_tail_set() {
    let v = base_settings().to_validated().unwrap();
    assert!(!v.is_previous_lines());
    let mut raw = base_settings();
    raw.since_seconds = Some(60);
    assert!(raw.to_validated().unwrap().is_previous_lines());
    let mut raw = base_settings();
    raw.tail_lines = Some(10);
    assert!(raw.to_validated().unwrap().is_previous_lines());
}

#[test]
fn update_from_copies_every_field() {
    let mut current = base_settings();
    let mut other = base_settings();
    other.pod_search = String::from("api-.*");
    other.namespaces = String::from("dev");
    other.previous = true;
    other.loop_pause = 9;
    other.color_lightness = 42;
    current.update_from(other.clone());
    assert_eq!(current.pod_search, "api-.*");
    assert_eq!(current.namespaces, "dev");
    assert!(current.previous);
    assert_eq!(current.loop_pause, 9);
    assert_eq!(current.color_lightness, 42);
}
