//! The configuration record and its validation.
//!
//! `Settings` holds the raw, textual configuration as it arrives from the
//! command line; `to_validated` compiles the matchers, parses the hue
//! intervals and checks every range, and returns the immutable
//! `SettingsValidated` record the engine runs on.

use vstd::prelude::*;

use crate::color::{spec_interval_ok, HueInterval, Lightness, Saturation};
use crate::error::Errors;
use crate::matching::{regex_valid, Matcher};
use crate::text::{spec_split, split_char};

verus! {

/// Updating a value in place from another value of the same type.
pub trait Update: Sized {
    /// Update all fields of `self` using `other_setting`.
    fn update_from(&mut self, other_setting: Self);
}

/// The raw configuration: every field as the command line hands it over.
#[derive(Debug, Clone)]
pub struct Settings {
    /// Regex to match pod names.
    pub pod_search: String,
    /// Path to the kubeconfig file; empty means "infer the configuration".
    pub kubeconfig: String,
    /// Namespaces to use, separated by commas; empty means the default.
    pub namespaces: String,
    /// Retrieve previous terminated container logs.
    pub previous: bool,
    /// A relative time in seconds before the current time from which to show logs.
    pub since_seconds: Option<i64>,
    /// Number of lines from the end of the logs to show.
    pub tail_lines: Option<i64>,
    /// Show a timestamp at the beginning of each log line.
    pub timestamps: bool,
    /// Number of seconds between two pod list queries.
    pub loop_pause: u64,
    /// Hue intervals for color generation, `start-end` separated by commas.
    pub hue_intervals: String,
    /// The color saturation (0-100).
    pub color_saturation: u8,
    /// The color lightness (0-100).
    pub color_lightness: u8,
    /// Regex: only lines that match are shown; empty means no filter.
    pub filter: String,
    /// Regex: lines that match are dropped; empty means no filter.
    pub inv_filter: String,
    /// Regex whose matches are replaced; active only together with a value.
    pub replace_pattern: String,
    /// Replacement for `replace_pattern`'s matches.
    pub replace_value: String,
}

impl Update for Settings {
    fn update_from(&mut self, other_setting: Self)
        ensures
            *final(self) == other_setting,
    {
        self.pod_search = other_setting.pod_search;
        self.kubeconfig = other_setting.kubeconfig;
        self.namespaces = other_setting.namespaces;
        self.previous = other_setting.previous;
        self.since_seconds = other_setting.since_seconds;
        self.tail_lines = other_setting.tail_lines;
        self.timestamps = other_setting.timestamps;
        self.loop_pause = other_setting.loop_pause;
        self.hue_intervals = other_setting.hue_intervals;
        self.color_saturation = other_setting.color_saturation;
        self.color_lightness = other_setting.color_lightness;
        self.filter = other_setting.filter;
        self.inv_filter = other_setting.inv_filter;
        self.replace_pattern = other_setting.replace_pattern;
        self.replace_value = other_setting.replace_value;
    }
}

/// The hue interval denoted by the text `s` (meaningful when
/// `spec_interval_ok(s)` holds).
pub open spec fn spec_parse_interval(s: Seq<char>) -> HueInterval {
    HueInterval {
        start: crate::color::Hue {
            value: crate::text::decimal_num(spec_split(s, '-')[0]) as u16,
        },
        end: crate::color::Hue { value: crate::text::decimal_num(spec_split(s, '-')[1]) as u16 },
    }
}

/// Whether every comma-separated piece of `s` denotes a hue interval.
pub open spec fn spec_intervals_ok(s: Seq<char>) -> bool {
    forall|i: int|
        0 <= i < spec_split(s, ',').len() ==> #[trigger] spec_interval_ok(spec_split(s, ',')[i])
}

/// The hue intervals denoted by the comma-separated text `s`.
pub open spec fn spec_intervals(s: Seq<char>) -> Seq<HueInterval> {
    spec_split(s, ',').map_values(|p: Seq<char>| spec_parse_interval(p))
}

/// Whether the whole raw configuration is acceptable.
pub open spec fn spec_settings_ok(s: &Settings) -> bool {
    &&& regex_valid(s.pod_search@)
    &&& spec_intervals_ok(s.hue_intervals@)
    &&& s.color_saturation <= 100
    &&& s.color_lightness <= 100
    &&& (s.filter@.len() == 0 || regex_valid(s.filter@))
    &&& (s.inv_filter@.len() == 0 || regex_valid(s.inv_filter@))
    &&& (!(s.replace_pattern@.len() > 0 && s.replace_value@.len() > 0) || regex_valid(
        s.replace_pattern@,
    ))
}

impl Settings {
    /// Parses the comma-separated hue interval list. Accepts exactly the
    /// strings in which every piece is a valid interval.
    pub fn get_hue_intervals(&self) -> (r: Result<Vec<HueInterval>, Errors>)
        ensures
            r is Ok <==> spec_intervals_ok(self.hue_intervals@),
            r matches Ok(v) ==> {
                &&& v@ == spec_intervals(self.hue_intervals@)
                &&& v@.len() >= 1
                &&& forall|i: int| 0 <= i < v@.len() ==> (#[trigger] v@[i]).valid()
            },
            r matches Err(e) ==> e is Validation,
    {
        let pieces = split_char(self.hue_intervals.as_str(), ',');
        let mut intervals: Vec<HueInterval> = Vec::new();
        let ghost all = spec_split(self.hue_intervals@, ',');
        let mut i: usize = 0;
        while i < pieces.len()
            invariant
                0 <= i <= pieces.len(),
                all == spec_split(self.hue_intervals@, ','),
                pieces@.map_values(|p: String| p@) == all,
                intervals@ == all.take(i as int).map_values(|p: Seq<char>| spec_parse_interval(p)),
                forall|j: int| 0 <= j < i ==> #[trigger] spec_interval_ok(all[j]),
                forall|j: int| 0 <= j < i ==> (#[trigger] intervals@[j]).valid(),
            decreases pieces.len() - i,
        {
            let interval = match HueInterval::from_str(pieces[i].as_str()) {
                Ok(v) => v,
                Err(e) => {
                    proof {
                        assert(pieces@.map_values(|p: String| p@)[i as int] == all[i as int]);
                        assert(!spec_interval_ok(spec_split(self.hue_intervals@, ',')[i as int]));
                        assert(!spec_intervals_ok(self.hue_intervals@));
                    }
                    return Err(e);
                },
            };
            match interval.validate() {
                Ok(_) => {},
                Err(e) => {
                    return Err(e);
                },
            }
            intervals.push(interval);
            i = i + 1;
            proof {
                assert(intervals@ =~= all.take(i as int).map_values(
                    |p: Seq<char>| spec_parse_interval(p),
                ));
            }
        }
        proof {
            assert(all.take(pieces@.len() as int) =~= all);
            assert(intervals@ =~= spec_intervals(self.hue_intervals@));
        }
        Ok(intervals)
    }

    /// Compiles and checks the whole configuration. Returns `Ok` exactly
    /// when the pod-name matcher, the optional filters and the optional
    /// replace pattern compile, every hue interval parses, and saturation
    /// and lightness are percentages.
    pub fn to_validated(self) -> (r: Result<SettingsValidated, Errors>)
        ensures
            r is Ok <==> spec_settings_ok(&self),
            r matches Ok(v) ==> {
                &&& v.pod_search.pattern() == self.pod_search@
                &&& (v.kubeconfig is Some <==> self.kubeconfig@.len() > 0)
                &&& v.kubeconfig matches Some(k) ==> k@ == self.kubeconfig@
                &&& v.namespaces@.map_values(|n: String| n@) == (if self.namespaces@.len() == 0 {
                    Seq::<Seq<char>>::empty()
                } else {
                    spec_split(self.namespaces@, ',')
                })
                &&& v.previous == self.previous
                &&& v.since_seconds == self.since_seconds
                &&& v.tail_lines == self.tail_lines
                &&& v.timestamps == self.timestamps
                &&& v.loop_pause == self.loop_pause
                &&& v.hue_intervals@ == spec_intervals(self.hue_intervals@)
                &&& v.color_saturation.value == self.color_saturation
                &&& v.color_lightness.value == self.color_lightness
                &&& (v.filter is Some <==> self.filter@.len() > 0)
                &&& (v.filter matches Some(m) ==> m.pattern() == self.filter@)
                &&& (v.inv_filter is Some <==> self.inv_filter@.len() > 0)
                &&& (v.inv_filter matches Some(m) ==> m.pattern() == self.inv_filter@)
                &&& (v.replace is Some <==> self.replace_pattern@.len() > 0
                    && self.replace_value@.len() > 0)
                &&& (v.replace matches Some(rp) ==> rp.pattern.pattern() == self.replace_pattern@
                    && rp.value@ == self.replace_value@)
                &&& v.wf()
            },
            r matches Err(e) ==> e is Validation,
    {
        let pod_search = match Matcher::compile(self.pod_search.as_str()) {
            Ok(m) => m,
            Err(e) => {
                return Err(e);
            },
        };
        let kubeconfig = if self.kubeconfig.as_str().is_empty() {
            None
        } else {
            Some(self.kubeconfig.clone())
        };
        let namespaces: Vec<String> = if self.namespaces.as_str().is_empty() {
            Vec::new()
        } else {
            split_char(self.namespaces.as_str(), ',')
        };
        let hue_intervals = match self.get_hue_intervals() {
            Ok(v) => v,
            Err(e) => {
                return Err(e);
            },
        };
        let color_saturation = Saturation { value: self.color_saturation };
        match color_saturation.validate() {
            Ok(_) => {},
            Err(e) => {
                return Err(e);
            },
        }
        let color_lightness = Lightness { value: self.color_lightness };
        match color_lightness.validate() {
            Ok(_) => {},
            Err(e) => {
                return Err(e);
            },
        }
        let filter = if self.filter.as_str().is_empty() {
            None
        } else {
            match Matcher::compile(self.filter.as_str()) {
                Ok(m) => Some(m),
                Err(e) => {
                    return Err(e);
                },
            }
        };
        let inv_filter = if self.inv_filter.as_str().is_empty() {
            None
        } else {
            match Matcher::compile(self.inv_filter.as_str()) {
                Ok(m) => Some(m),
                Err(e) => {
                    return Err(e);
                },
            }
        };
        let replace = if !self.replace_pattern.as_str().is_empty() && !self.replace_value.as_str().is_empty() {
            match Matcher::compile(self.replace_pattern.as_str()) {
                Ok(m) => Some(Replace { pattern: m, value: self.replace_value.clone() }),
                Err(e) => {
                    return Err(e);
                },
            }
        } else {
            None
        };
        Ok(
            SettingsValidated {
                pod_search,
                kubeconfig,
                namespaces,
                previous: self.previous,
                since_seconds: self.since_seconds,
                tail_lines: self.tail_lines,
                timestamps: self.timestamps,
                loop_pause: self.loop_pause,
                hue_intervals,
                color_saturation,
                color_lightness,
                filter,
                inv_filter,
                replace,
            },
        )
    }
}

/// An active replace rule: a compiled pattern and its replacement text.
pub struct Replace {
    pub pattern: Matcher,
    pub value: String,
}

/// The validated, immutable configuration the engine consumes.
pub struct SettingsValidated {
    pub pod_search: Matcher,
    pub kubeconfig: Option<String>,
    pub namespaces: Vec<String>,
    pub previous: bool,
    pub since_seconds: Option<i64>,
    pub tail_lines: Option<i64>,
    pub timestamps: bool,
    pub loop_pause: u64,
    pub hue_intervals: Vec<HueInterval>,
    pub color_saturation: Saturation,
    pub color_lightness: Lightness,
    pub filter: Option<Matcher>,
    pub inv_filter: Option<Matcher>,
    pub replace: Option<Replace>,
}

impl SettingsValidated {
    /// What validation guarantees: at least one hue interval, every interval
    /// well-formed, saturation and lightness in range.
    pub open spec fn wf(&self) -> bool {
        &&& self.hue_intervals@.len() >= 1
        &&& forall|i: int|
            0 <= i < self.hue_intervals@.len() ==> (#[trigger] self.hue_intervals@[i]).valid()
        &&& self.color_saturation.valid()
        &&& self.color_lightness.valid()
    }

    /// Whether a one-shot "previous lines" fetch precedes streaming.
    pub fn is_previous_lines(&self) -> (r: bool)
        ensures
            r == (self.since_seconds is Some || self.tail_lines is Some),
    {
        self.since_seconds.is_some() || self.tail_lines.is_some()
    }
}

} // verus!
