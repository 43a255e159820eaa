use rusty_stern::color::{ColorParams, Colors, Hsl, Hue, HueInterval, Lightness, Saturation};
use rusty_stern::settings::Settings;

fn base_settings() -> Settings {
    Settings {
        pod_search: String::from(".+"),
        kubeconfig: String::new(),
        namespaces: String::new(),
        previous: false,
        since_seconds: None,
        tail_lines: None,
        timestamps: false,
        loop_pause: 2,
        hue_intervals: String::from("0-359"),
        color_saturation: 100,
        color_lightness: 50,
        filter: String::new(),
        inv_filter: String::new(),
        replace_pattern: String::new(),
        replace_value: String::new(),
    }
}

fn color(h: u16) -> Hsl {
    Hsl { h: Hue { value: h }, s: Saturation { value: 100 }, l: Lightness { value: 50 } }
}

#[test]
fn saturation_validate_range() {
    assert!(Saturation { value: 0 }.validate().is_ok());
    assert!(Saturation { value: 100 }.validate().is_ok());
    assert!(Saturation { value: 101 }.validate().is_err());
}

#[test]
fn lightness_validate_range() {
    assert!(Lightness { value: 50 }.validate().is_ok());
    assert!(Lightness { value: 200 }.validate().is_err());
}

#[test]
fn hue_from_str_parses_and_checks_range() {
    assert_eq!(Hue::from_str("0").unwrap().value, 0);
    assert_eq!(Hue::from_str("359").unwrap().value, 359);
    assert!(Hue::from_str("360").is_err());
    assert!(Hue::from_str("").is_err());
    assert!(Hue::from_str("12a").is_err());
    assert!(Hue::from_str("70000").is_err());
}

#[test]
fn saturation_from_str_parses_u8() {
    assert_eq!(Saturation::from_str("255").unwrap().value, 255);
    assert!(Saturation::from_str("256").is_err());
    assert!(Saturation::from_str("-1").is_err());
}

#[test]
fn interval_from_str_accepts_ordered_pairs() {
    let iv = HueInterval::from_str("10-20").unwrap();
    assert_eq!(iv.start.value, 10);
    assert_eq!(iv.end.value, 20);
    assert!(HueInterval::from_str("20-10").is_err());
    assert!(HueInterval::from_str("10-10").is_err());
    assert!(HueInterval::from_str("10").is_err());
    assert!(HueInterval::from_str("10-20-30").is_err());
    assert!(HueInterval::from_str("0-360").is_err());
}

#[test]
fn interval_validate_checks_order() {
    let iv = HueInterval { start: Hue { value: 5 }, end: Hue { value: 5 } };
    assert!(iv.validate().is_err());
    let iv = HueInterval { start: Hue { value: 4 }, end: Hue { value: 5 } };
    assert!(iv.validate().is_ok());
}

#[test]
fn hsl_from_str_and_validate() {
    let hsl = Hsl::from_str("120,100,50").unwrap();
    assert_eq!(hsl.h.value, 120);
    assert_eq!(hsl.s.value, 100);
    assert_eq!(hsl.l.value, 50);
    assert!(Hsl::from_str("120,100").is_err());
    assert!(Hsl::from_str("400,100,50").is_err());
    assert!(hsl.validate().is_ok());
    assert!(Hsl::from_str("120,200,50").unwrap().validate().is_err());
}

#[test]
fn generator_spaces_hues_evenly_first() {
    let settings = base_settings().to_validated().unwrap();
    let mut params = ColorParams::new(&settings, 10);
    let colors = params.init_colors();
    assert_eq!(colors.len(), 10);
    let hues: Vec<u16> = colors.iter().map(|c| c.h.value).collect();
    assert_eq!(hues, vec![0, 36, 72, 108, 144, 180, 216, 252, 288, 324]);
    for c in &colors {
        assert_eq!(c.s.value, 100);
        assert_eq!(c.l.value, 50);
    }
}

#[test]
fn generator_respects_intervals() {
    let mut raw = base_settings();
    raw.hue_intervals = String::from("100-110,200-210");
    let settings = raw.to_validated().unwrap();
    let mut params = ColorParams::new(&settings, 4);
    let colors = params.init_colors();
    assert_eq!(colors.len(), 4);
    for c in &colors {
        let h = c.h.value;
        assert!((100..=110).contains(&h) || (200..=210).contains(&h));
    }
}

#[test]
fn distinct_colors_until_hues_run_out() {
    // With enough hues, repeated allocation yields pairwise-distinct colors.
    let settings = base_settings().to_validated().unwrap();
    let mut params = ColorParams::new(&settings, 10);
    let mut colors = Colors::new(&mut params);
    let mut seen: Vec<Hsl> = Vec::new();
    for _ in 0..20 {
        let c = colors.get_new_color();
        assert!(!seen.contains(&c), "hue repeated too early");
        seen.push(c);
    }
}

#[test]
fn exhausted_hues_degrade_to_duplicates() {
    // Two hues for five expected pods: allocation still never fails.
    let mut raw = base_settings();
    raw.hue_intervals = String::from("0-1");
    let settings = raw.to_validated().unwrap();
    let mut params = ColorParams::new(&settings, 5);
    let mut colors = Colors::new(&mut params);
    for _ in 0..8 {
        let c = colors.get_new_color();
        assert!(c.h.value <= 1);
    }
}

#[test]
fn used_and_available_stay_disjoint() {
    // After every call, no color is both available and used.
    let settings = base_settings().to_validated().unwrap();
    let mut params = ColorParams::new(&settings, 4);
    let mut colors = Colors::new(&mut params);
    let a = colors.get_new_color();
    let b = colors.get_new_color();
    assert!(!colors.available_contains(a));
    assert!(!colors.available_contains(b));
    assert!(colors.used_contains(a));
    colors.set_color_to_unused(a);
    assert!(colors.available_contains(a));
    assert!(!colors.used_contains(a));
    assert!(colors.used_contains(b));
    colors.set_color_to_unused(b);
    assert!(!colors.used_contains(b));
    assert!(colors.available_contains(b));
}

#[test]
fn release_of_untracked_color_is_a_no_op() {
    let settings = base_settings().to_validated().unwrap();
    let mut params = ColorParams::new(&settings, 2);
    let mut colors = Colors::new(&mut params);
    let avail_before = colors.available_len();
    let used_before = colors.used_len();
    colors.set_color_to_unused(color(333));
    assert_eq!(colors.available_len(), avail_before);
    assert_eq!(colors.used_len(), used_before);
}

#[test]
fn released_color_is_reused_before_generation() {
    let settings = base_settings().to_validated().unwrap();
    let mut params = ColorParams::new(&settings, 1);
    let mut colors = Colors::new(&mut params);
    let first = colors.get_new_color();
    colors.set_color_to_unused(first);
    let second = colors.get_new_color();
    assert_eq!(first, second);
}

#[test]
fn plus_prefixed_numbers_parse() {
    assert_eq!(Hue::from_str("+5").unwrap().value, 5);
    assert_eq!(Saturation::from_str("+100").unwrap().value, 100);
    assert_eq!(Lightness::from_str("+0").unwrap().value, 0);
    assert!(Hue::from_str("+").is_err());
    assert!(Hue::from_str("++5").is_err());
    assert!(Hue::from_str("+-5").is_err());
    let iv = HueInterval::from_str("+5-+10").unwrap();
    assert_eq!(iv.start.value, 5);
    assert_eq!(iv.end.value, 10);
}

#[test]
fn small_hue_list_stays_distinct_until_exhausted() {
    // Four hues, initial cycle of one: the doubling reaches the full hue
    // count, so four draws give four distinct hues before any repeats.
    let mut raw = base_settings();
    raw.hue_intervals = String::from("0-3");
    let settings = raw.to_validated().unwrap();
    let mut params = ColorParams::new(&settings, 1);
    let mut colors = Colors::new(&mut params);
    let mut seen: Vec<u16> = Vec::new();
    for _ in 0..4 {
        let c = colors.get_new_color();
        assert!(!seen.contains(&c.h.value), "hue repeated before exhaustion");
        seen.push(c.h.value);
    }
    let fifth = colors.get_new_color();
    assert!(seen.contains(&fifth.h.value));
}
