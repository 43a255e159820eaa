use rusty_stern::color::{ColorParams, Colors};
use rusty_stern::matching::Matcher;
use rusty_stern::registry::{
    get_pod_name, get_pods_cnt, is_pod_running, Pod, PodDescriptor, Pods,
};
use rusty_stern::settings::Settings;

fn base_settings() -> Settings {
    Settings {
        pod_search: String::from(".+"),
        kubeconfig: String::new(),
        namespaces: String::new(),
        previous: false,
        since_seconds: None,
        tail_lines: None,
        timestamps: false,
        loop_pause: 2,
        hue_intervals: String::from("0-359"),
        color_saturation: 100,
        color_lightness: 50,
        filter: String::new(),
        inv_filter: String::new(),
        replace_pattern: String::new(),
        replace_value: String::new(),
    }
}

fn allocator(pod_cnt: usize) -> Colors {
    let settings = base_settings().to_validated().unwrap();
    let mut params = ColorParams::new(&settings, pod_cnt);
    Colors::new(&mut params)
}

fn descriptor(name: &str, namespace: &str, phase: &str) -> PodDescriptor {
    PodDescriptor {
        name: Some(String::from(name)),
        namespace: String::from(namespace),
        phase: Some(String::from(phase)),
    }
}

#[test]
fn pod_name_falls_back_to_placeholder() {
    let d = PodDescriptor { name: None, namespace: String::from("ns"), phase: None };
    assert_eq!(get_pod_name(&d), "NO_NAME");
    let d = descriptor("api", "ns", "Running");
    assert_eq!(get_pod_name(&d), "api");
}

#[test]
fn running_means_phase_running() {
    assert!(is_pod_running(&descriptor("a", "ns", "Running")));
    assert!(!is_pod_running(&descriptor("a", "ns", "Pending")));
    let d = PodDescriptor { name: Some(String::from("a")), namespace: String::from("ns"), phase: None };
    assert!(!is_pod_running(&d));
}

#[test]
fn new_tracks_matching_running_pods_only() {
    let search = Matcher::compile("api-.*").unwrap();
    let listings = vec![
        descriptor("api-1", "default", "Running"),
        descriptor("api-2", "default", "Pending"),
        descriptor("worker-1", "default", "Running"),
    ];
    let pods = Pods::new(search, allocator(3), &listings);
    assert_eq!(pods.items.len(), 1);
    assert_eq!(pods.items[0].name, "api-1");
    assert_eq!(pods.items[0].namespace, "default");
}

#[test]
fn padding_counts_name_only_for_single_namespace() {
    // The padding is the longest name when a single namespace shows.
    let search = Matcher::compile(".+").unwrap();
    let listings = vec![
        descriptor("a", "default", "Running"),
        descriptor("longer-name", "default", "Running"),
    ];
    let pods = Pods::new(search, allocator(2), &listings);
    assert!(!pods.print_namespace);
    assert_eq!(pods.padding, "longer-name".len());
}

#[test]
fn padding_counts_namespace_when_two_show() {
    // With two namespaces the padding counts name, namespace and separator.
    let search = Matcher::compile(".+").unwrap();
    let listings = vec![
        descriptor("x", "a", "Running"),
        descriptor("yy", "b", "Running"),
    ];
    let pods = Pods::new(search, allocator(2), &listings);
    assert!(pods.print_namespace);
    assert_eq!(pods.padding, 4);
}

#[test]
fn remove_recomputes_derived_fields() {
    let search = Matcher::compile(".+").unwrap();
    let listings = vec![
        descriptor("a", "default", "Running"),
        descriptor("longer-name", "default", "Running"),
    ];
    let mut pods = Pods::new(search, allocator(2), &listings);
    let long = pods.items[1].clone();
    pods.remove_pod(&long);
    assert_eq!(pods.items.len(), 1);
    assert_eq!(pods.padding, 1);
}

#[test]
fn remove_is_idempotent() {
    // Removing the same pod twice equals removing it once.
    let search = Matcher::compile(".+").unwrap();
    let listings = vec![
        descriptor("a", "default", "Running"),
        descriptor("b", "default", "Running"),
    ];
    let mut pods = Pods::new(search, allocator(2), &listings);
    let victim = pods.items[0].clone();
    pods.remove_pod(&victim);
    let names_once: Vec<String> = pods.items.iter().map(|p| p.name.clone()).collect();
    let padding_once = pods.padding;
    let show_once = pods.print_namespace;
    pods.remove_pod(&victim);
    let names_twice: Vec<String> = pods.items.iter().map(|p| p.name.clone()).collect();
    assert_eq!(names_once, names_twice);
    assert_eq!(padding_once, pods.padding);
    assert_eq!(show_once, pods.print_namespace);
}

#[test]
fn refresh_adds_only_new_identities() {
    let search = Matcher::compile(".+").unwrap();
    let listings = vec![descriptor("a", "default", "Running")];
    let mut pods = Pods::new(search, allocator(1), &listings);
    assert_eq!(pods.items.len(), 1);
    let second = vec![
        descriptor("a", "default", "Running"),
        descriptor("b", "default", "Running"),
        descriptor("b", "default", "Running"),
    ];
    pods.refresh(&second);
    assert_eq!(pods.items.len(), 2);
    assert_eq!(pods.items[0].name, "a");
    assert_eq!(pods.items[1].name, "b");
}

#[test]
fn refresh_never_removes() {
    let search = Matcher::compile(".+").unwrap();
    let listings = vec![descriptor("a", "default", "Running")];
    let mut pods = Pods::new(search, allocator(1), &listings);
    pods.refresh(&Vec::new());
    assert_eq!(pods.items.len(), 1);
}

#[test]
fn pod_equality_is_identity() {
    let mut alloc1 = allocator(1);
    let p1 = Pod {
        name: String::from("a"),
        namespace: String::from("ns"),
        color: alloc1.get_new_color(),
    };
    let mut p2 = p1.clone();
    p2.color = {
        let mut alloc = allocator(4);
        alloc.get_new_color();
        alloc.get_new_color()
    };
    assert_eq!(p1, p2);
    let mut p3 = p1.clone();
    p3.namespace = String::from("other");
    assert_ne!(p1, p3);
}

#[test]
fn pods_count_matches_search() {
    let search = Matcher::compile("api-.*").unwrap();
    let listings = vec![
        descriptor("api-1", "default", "Running"),
        descriptor("api-2", "default", "Pending"),
        descriptor("worker", "default", "Running"),
    ];
    assert_eq!(get_pods_cnt(&listings, &search), 2);
}
