use rusty_stern::color::{ColorParams, Colors};
use rusty_stern::matching::Matcher;
use rusty_stern::registry::PodDescriptor;
use rusty_stern::registry::Pods;
use rusty_stern::settings::Settings;
use rusty_stern::supervisor::{
    handle_listing, handle_stream_event, new_log_param, next_loop_state, plan_pod_action, pod_id,
    start_notice, ListingOutcome, LoopState, PodAction, StreamDirective, StreamEvent,
};
use rusty_stern::Errors;

fn base_settings() -> Settings {
    Settings {
        pod_search: String::from(".+"),
        kubeconfig: String::new(),
        namespaces: String::new(),
        previous: false,
        since_seconds: None,
        tail_lines: None,
        timestamps: false,
        loop_pause: 2,
        hue_intervals: String::from("0-359"),
        color_saturation: 100,
        color_lightness: 50,
        filter: String::new(),
        inv_filter: String::new(),
        replace_pattern: String::new(),
        replace_value: String::new(),
    }
}

fn descriptor(name: &str, namespace: &str) -> PodDescriptor {
    PodDescriptor {
        name: Some(String::from(name)),
        namespace: String::from(namespace),
        phase: Some(String::from("Running")),
    }
}

fn registry_of(listings: Vec<PodDescriptor>) -> Pods {
    let validated = base_settings().to_validated().unwrap();
    let mut params = ColorParams::new(&validated, listings.len());
    let colors = Colors::new(&mut params);
    Pods::new(Matcher::compile(".+").unwrap(), colors, &listings)
}

#[test]
fn loop_state_is_idle_exactly_when_nothing_tracked() {
    assert_eq!(next_loop_state(0), LoopState::IdleWait);
    assert_eq!(next_loop_state(1), LoopState::Active);
    assert_eq!(next_loop_state(17), LoopState::Active);
}

#[test]
fn pod_actions_follow_running_and_streaming() {
    assert_eq!(plan_pod_action(false, false), PodAction::Teardown);
    assert_eq!(plan_pod_action(false, true), PodAction::Teardown);
    assert_eq!(plan_pod_action(true, true), PodAction::Skip);
    assert_eq!(plan_pod_action(true, false), PodAction::StartStream);
}

#[test]
fn pod_id_joins_namespace_and_name() {
    let pods = registry_of(vec![descriptor("api", "dev")]);
    assert_eq!(pod_id(&pods.items[0]), "dev/api");
}

#[test]
fn lifecycle_notices_carry_the_pod_id() {
    let pods = registry_of(vec![descriptor("api", "dev")]);
    let pod = pods.items[0].clone();
    assert_eq!(start_notice(&pod), "+++ dev/api just started");
    let settings = base_settings().to_validated().unwrap();
    match handle_stream_event(&StreamEvent::End, &settings, &pods, &pod) {
        StreamDirective::Finish(m) => assert_eq!(m, "--- dev/api gracefully stopped (maybe)"),
        _ => panic!("stream end must finish the pod"),
    }
    match handle_stream_event(
        &StreamEvent::Failed(String::from("connection reset")),
        &settings,
        &pods,
        &pod,
    ) {
        StreamDirective::Abort(m) => {
            assert_eq!(m, "--- dev/api failled miserably (connection reset)")
        },
        _ => panic!("stream failure must abort the pod"),
    }
}

#[test]
fn lines_flow_through_filters_and_formatting() {
    let pods = registry_of(vec![descriptor("api", "dev")]);
    let pod = pods.items[0].clone();
    let mut raw = base_settings();
    raw.filter = String::from("keep");
    let settings = raw.to_validated().unwrap();
    match handle_stream_event(&StreamEvent::Line(String::from("keep me")), &settings, &pods, &pod)
    {
        StreamDirective::Print(m) => assert_eq!(m, "api: keep me"),
        _ => panic!("matching line must print"),
    }
    match handle_stream_event(&StreamEvent::Line(String::from("drop me")), &settings, &pods, &pod)
    {
        StreamDirective::Ignore => {},
        _ => panic!("non-matching line must be dropped"),
    }
}

#[test]
fn stream_failure_leaves_other_pods_untouched() {
    // Fault isolation: pod a's stream fails; pod b stays tracked, its color
    // stays bound, and its output is unchanged.
    let mut pods = registry_of(vec![descriptor("a", "dev"), descriptor("b", "dev")]);
    let settings = base_settings().to_validated().unwrap();
    let a = pods.items[0].clone();
    let b = pods.items[1].clone();
    let b_before = handle_stream_event(
        &StreamEvent::Line(String::from("log")),
        &settings,
        &pods,
        &b,
    );
    match handle_stream_event(
        &StreamEvent::Failed(String::from("boom")),
        &settings,
        &pods,
        &a,
    ) {
        StreamDirective::Abort(_) => pods.teardown_pod(&a),
        _ => panic!("failure must abort"),
    }
    assert_eq!(pods.items.len(), 1);
    assert_eq!(pods.items[0].name, "b");
    assert!(pods.colors.used_contains(b.color));
    assert!(!pods.colors.used_contains(a.color));
    let b_after = handle_stream_event(
        &StreamEvent::Line(String::from("log")),
        &settings,
        &pods,
        &b,
    );
    match (b_before, b_after) {
        (StreamDirective::Print(x), StreamDirective::Print(y)) => assert_eq!(x, y),
        _ => panic!("pod b must keep printing"),
    }
}

#[test]
fn refresh_reuses_a_released_color() {
    // End-to-end scenario: two pods stream, a third terminated and released
    // its color in the same interval; the pod the next refresh discovers
    // receives that recycled color, not a brand-new hue.
    let mut pods = registry_of(vec![
        descriptor("one", "dev"),
        descriptor("two", "dev"),
        descriptor("three", "dev"),
    ]);
    let third = pods.items[2].clone();
    let released = third.color;
    pods.teardown_pod(&third);
    assert!(pods.colors.available_contains(released));
    let next = vec![
        descriptor("one", "dev"),
        descriptor("two", "dev"),
        descriptor("four", "dev"),
    ];
    pods.refresh(&next);
    assert_eq!(pods.items.len(), 3);
    assert_eq!(pods.items[2].name, "four");
    assert_eq!(pods.items[2].color, released);
    assert!(!pods.colors.available_contains(released));
}

#[test]
fn log_params_differ_between_fetch_and_follow() {
    let mut raw = base_settings();
    raw.since_seconds = Some(120);
    raw.tail_lines = Some(7);
    raw.previous = true;
    raw.timestamps = false;
    let settings = raw.to_validated().unwrap();
    let fetch = new_log_param(&settings, true);
    assert!(!fetch.follow);
    assert!(fetch.timestamps);
    assert!(fetch.previous);
    assert_eq!(fetch.since_seconds, Some(120));
    assert_eq!(fetch.tail_lines, Some(7));
    let follow = new_log_param(&settings, false);
    assert!(follow.follow);
    assert!(!follow.timestamps);
    assert_eq!(follow.since_seconds, None);
    assert_eq!(follow.tail_lines, Some(0));
}

#[test]
fn listing_failure_becomes_a_retry_notice() {
    let err = Errors::Kubernetes(String::from("get pods list on namespace dev"), String::from("401"));
    match handle_listing(Err(err)) {
        ListingOutcome::Retry(m) => {
            assert_eq!(m, "api failled for `get pods list on namespace dev`, detail: `401`")
        },
        _ => panic!("a failed listing must be retried"),
    }
    let listed = vec![descriptor("a", "dev")];
    match handle_listing(Ok(listed)) {
        ListingOutcome::Reconcile(l) => {
            assert_eq!(l.len(), 1);
            assert_eq!(l[0].name.as_deref(), Some("a"));
        },
        _ => panic!("a successful listing must be reconciled"),
    }
}
