use rusty_stern::color::{ColorParams, Colors};
use rusty_stern::matching::Matcher;
use rusty_stern::output::{format_log_line, normalize_newline, process_line};
use rusty_stern::registry::{PodDescriptor, Pods};
use rusty_stern::settings::Settings;

fn base_settings() -> Settings {
    Settings {
        pod_search: String::from(".+"),
        kubeconfig: String::new(),
        namespaces: String::new(),
        previous: false,
        since_seconds: None,
        tail_lines: None,
        timestamps: false,
        loop_pause: 2,
        hue_intervals: String::from("0-359"),
        color_saturation: 100,
        color_lightness: 50,
        filter: String::new(),
        inv_filter: String::new(),
        replace_pattern: String::new(),
        replace_value: String::new(),
    }
}

fn descriptor(name: &str, namespace: &str) -> PodDescriptor {
    PodDescriptor {
        name: Some(String::from(name)),
        namespace: String::from(namespace),
        phase: Some(String::from("Running")),
    }
}

fn registry_of(listings: Vec<PodDescriptor>) -> Pods {
    let validated = base_settings().to_validated().unwrap();
    let mut params = ColorParams::new(&validated, listings.len());
    let colors = Colors::new(&mut params);
    Pods::new(Matcher::compile(".+").unwrap(), colors, &listings)
}

#[test]
fn normalize_appends_exactly_one_newline() {
    assert_eq!(normalize_newline(String::from("abc")), "abc\n");
    assert_eq!(normalize_newline(String::from("abc\n")), "abc\n");
    assert_eq!(normalize_newline(String::new()), "");
}

#[test]
fn single_namespace_prefix_has_no_namespace() {
    // End-to-end scenario: one namespace, one pod named api-7f9, matcher .+,
    // two streamed lines come out color-tagged as "api-7f9: hello" / "api-7f9: world".
    let pods = registry_of(vec![descriptor("api-7f9", "default")]);
    let settings = base_settings().to_validated().unwrap();
    let pod = pods.items[0].clone();
    let first = process_line(&String::from("hello"), &settings, &pods, &pod).unwrap();
    let second = process_line(&String::from("world"), &settings, &pods, &pod).unwrap();
    assert_eq!(first, "api-7f9: hello");
    assert_eq!(second, "api-7f9: world");
}

#[test]
fn two_namespaces_align_on_the_colon() {
    // End-to-end scenario: namespaces a and b, pods x and yy: showNamespace
    // holds, padding is 4, prefixes are right-padded to width 4 before the colon.
    let pods = registry_of(vec![descriptor("x", "a"), descriptor("yy", "b")]);
    let settings = base_settings().to_validated().unwrap();
    assert!(pods.print_namespace);
    assert_eq!(pods.padding, 4);
    let x = pods.items[0].clone();
    let yy = pods.items[1].clone();
    let mx = process_line(&String::from("hello"), &settings, &pods, &x).unwrap();
    let my = process_line(&String::from("hello"), &settings, &pods, &yy).unwrap();
    assert_eq!(mx, "a/x : hello");
    assert_eq!(my, "b/yy: hello");
}

#[test]
fn filter_drops_non_matching_lines() {
    // End-to-end scenario: filter ERROR set, inverse filter unset: an
    // "info: ok" line is dropped, "ERROR: boom" is printed.
    let pods = registry_of(vec![descriptor("api", "default")]);
    let mut raw = base_settings();
    raw.filter = String::from("ERROR");
    let settings = raw.to_validated().unwrap();
    let pod = pods.items[0].clone();
    assert!(process_line(&String::from("info: ok"), &settings, &pods, &pod).is_none());
    let kept = process_line(&String::from("ERROR: boom"), &settings, &pods, &pod).unwrap();
    assert_eq!(kept, "api: ERROR: boom");
}

#[test]
fn inverse_filter_drops_matching_lines() {
    let pods = registry_of(vec![descriptor("api", "default")]);
    let mut raw = base_settings();
    raw.inv_filter = String::from("noise");
    let settings = raw.to_validated().unwrap();
    let pod = pods.items[0].clone();
    assert!(process_line(&String::from("some noise here"), &settings, &pods, &pod).is_none());
    assert!(process_line(&String::from("signal"), &settings, &pods, &pod).is_some());
}

#[test]
fn replace_rule_rewrites_lines() {
    let pods = registry_of(vec![descriptor("api", "default")]);
    let mut raw = base_settings();
    raw.replace_pattern = String::from("secret-[0-9]+");
    raw.replace_value = String::from("[redacted]");
    let settings = raw.to_validated().unwrap();
    let pod = pods.items[0].clone();
    let msg = process_line(&String::from("token secret-123 leaked"), &settings, &pods, &pod)
        .unwrap();
    assert_eq!(msg, "api: token [redacted] leaked");
}

#[test]
fn format_pads_to_the_given_width() {
    let pods = registry_of(vec![descriptor("ab", "default")]);
    let pod = pods.items[0].clone();
    let line = format_log_line(&pod, 5, false, "msg");
    assert_eq!(line, "ab   : msg");
}
