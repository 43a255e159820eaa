//! Colors and the color allocator.
//!
//! Colors are kept as hue/saturation/lightness triples of plain integers;
//! the conversion to an RGB triple for the terminal happens outside the
//! library. The allocator hands out visually distinct hues first and recycles
//! released colors before generating new ones.

use vstd::prelude::*;

use crate::error::Errors;
use crate::settings::SettingsValidated;
use crate::text::{decimal_num, is_decimal, parse_u16, parse_u8, spec_split, split_char};

verus! {

/// A color saturation percentage.
#[derive(Debug, Clone, Copy, PartialEq, Eq, Structural)]
pub struct Saturation {
    pub value: u8,
}

impl Saturation {
    /// Whether the percentage is in range.
    pub open spec fn valid(&self) -> bool {
        self.value <= 100
    }

    /// Accepts exactly the percentages 0 to 100.
    pub fn validate(&self) -> (r: Result<(), Errors>)
        ensures
            r is Ok <==> self.valid(),
            r matches Err(e) ==> e is Validation,
    {
        if self.value <= 100 {
            Ok(())
        } else {
            Err(Errors::Validation(String::from_str("saturation must be between 0 and 100")))
        }
    }

    /// Parses a decimal string; any value a `u8` can hold is accepted here,
    /// the range check is `validate`'s.
    pub fn from_str(string: &str) -> (r: Result<Saturation, Errors>)
        ensures
            r is Ok <==> is_decimal(string@) && decimal_num(string@) <= u8::MAX,
            r matches Ok(v) ==> v.value as int == decimal_num(string@),
            r matches Err(e) ==> e is Validation,
    {
        match parse_u8(string) {
            Ok(value) => Ok(Saturation { value }),
            Err(e) => Err(e),
        }
    }
}

/// A color lightness percentage.
#[derive(Debug, Clone, Copy, PartialEq, Eq, Structural)]
pub struct Lightness {
    pub value: u8,
}

impl Lightness {
    /// Whether the percentage is in range.
    pub open spec fn valid(&self) -> bool {
        self.value <= 100
    }

    /// Accepts exactly the percentages 0 to 100.
    pub fn validate(&self) -> (r: Result<(), Errors>)
        ensures
            r is Ok <==> self.valid(),
            r matches Err(e) ==> e is Validation,
    {
        if self.value <= 100 {
            Ok(())
        } else {
            Err(Errors::Validation(String::from_str("lightness must be between 0 and 100")))
        }
    }

    /// Parses a decimal string; any value a `u8` can hold is accepted here,
    /// the range check is `validate`'s.
    pub fn from_str(string: &str) -> (r: Result<Lightness, Errors>)
        ensures
            r is Ok <==> is_decimal(string@) && decimal_num(string@) <= u8::MAX,
            r matches Ok(v) ==> v.value as int == decimal_num(string@),
            r matches Err(e) ==> e is Validation,
    {
        match parse_u8(string) {
            Ok(value) => Ok(Lightness { value }),
            Err(e) => Err(e),
        }
    }
}

/// A hue on the 0-359 color wheel.
#[derive(Debug, Clone, Copy, PartialEq, Eq, Structural)]
pub struct Hue {
    pub value: u16,
}

impl Hue {
    /// Whether the hue is on the wheel.
    pub open spec fn valid(&self) -> bool {
        self.value <= 359
    }

    /// Accepts exactly the hues 0 to 359.
    pub fn validate(&self) -> (r: Result<(), Errors>)
        ensures
            r is Ok <==> self.valid(),
            r matches Err(e) ==> e is Validation,
    {
        if self.value <= 359 {
            Ok(())
        } else {
            Err(Errors::Validation(String::from_str("hue must be between 0 and 359")))
        }
    }

    /// Parses a decimal string and checks the wheel range.
    pub fn from_str(string: &str) -> (r: Result<Hue, Errors>)
        ensures
            r is Ok <==> spec_hue_ok(string@),
            r matches Ok(v) ==> v.value as int == decimal_num(string@),
            r matches Err(e) ==> e is Validation,
    {
        let value = match parse_u16(string) {
            Ok(v) => v,
            Err(e) => {
                return Err(e);
            },
        };
        let hue = Hue { value };
        match hue.validate() {
            Ok(_) => Ok(hue),
            Err(e) => Err(e),
        }
    }
}

/// Whether a string denotes a hue: a digit run whose value is at most 359.
pub open spec fn spec_hue_ok(s: Seq<char>) -> bool {
    is_decimal(s) && decimal_num(s) <= 359
}

/// An inclusive range of hues, used to constrain which hues the generator
/// may pick.
#[derive(Debug, Clone, Copy, PartialEq, Eq, Structural)]
pub struct HueInterval {
    pub start: Hue,
    pub end: Hue,
}

/// Whether a string denotes a hue interval: `start-end` with two hues and
/// `start < end`.
pub open spec fn spec_interval_ok(s: Seq<char>) -> bool {
    let ps = spec_split(s, '-');
    &&& ps.len() == 2
    &&& spec_hue_ok(ps[0])
    &&& spec_hue_ok(ps[1])
    &&& decimal_num(ps[0]) < decimal_num(ps[1])
}

impl HueInterval {
    /// Whether the interval is well-formed: on the wheel and non-empty.
    pub open spec fn valid(&self) -> bool {
        self.start.value < self.end.value && self.end.value <= 359
    }

    /// Accepts exactly the intervals whose start lies before their end.
    pub fn validate(self) -> (r: Result<(), Errors>)
        ensures
            r is Ok <==> self.start.value < self.end.value,
            r matches Err(e) ==> e is Validation,
    {
        if self.start.value >= self.end.value {
            Err(Errors::Validation(String::from_str("start value must be greater than end value")))
        } else {
            Ok(())
        }
    }

    /// Parses `start-end`.
    pub fn from_str(string: &str) -> (r: Result<HueInterval, Errors>)
        ensures
            r is Ok <==> spec_interval_ok(string@),
            r matches Ok(v) ==> {
                &&& v.start.value as int == decimal_num(spec_split(string@, '-')[0])
                &&& v.end.value as int == decimal_num(spec_split(string@, '-')[1])
                &&& v.valid()
            },
            r matches Err(e) ==> e is Validation,
    {
        let interval = split_char(string, '-');
        if interval.len() != 2 {
            return Err(
                Errors::Validation(String::from_str("excpected 2 elements for a hue interval")),
            );
        }
        let start = match Hue::from_str(interval[0].as_str()) {
            Ok(v) => v,
            Err(e) => {
                return Err(e);
            },
        };
        let end = match Hue::from_str(interval[1].as_str()) {
            Ok(v) => v,
            Err(e) => {
                return Err(e);
            },
        };
        if start.value > 359 || end.value > 359 || start.value >= end.value {
            return Err(
                Errors::Validation(
                    String::from_str("format excpected => 0 <= value <= 359 && start < end"),
                ),
            );
        }
        Ok(HueInterval { start, end })
    }
}

/// A full hue/saturation/lightness triple.
#[derive(Debug, Clone, Copy, PartialEq, Eq, Structural)]
pub struct Hsl {
    pub h: Hue,
    pub s: Saturation,
    pub l: Lightness,
}

/// Whether a string denotes an hsl triple: `hue,saturation,lightness`.
pub open spec fn spec_hsl_ok(s: Seq<char>) -> bool {
    let ps = spec_split(s, ',');
    &&& ps.len() == 3
    &&& spec_hue_ok(ps[0])
    &&& is_decimal(ps[1]) && decimal_num(ps[1]) <= u8::MAX
    &&& is_decimal(ps[2]) && decimal_num(ps[2]) <= u8::MAX
}

impl Hsl {
    /// Whether all three components are in range.
    pub open spec fn valid(&self) -> bool {
        self.h.valid() && self.s.valid() && self.l.valid()
    }

    /// Accepts exactly the triples whose components are all in range.
    pub fn validate(self) -> (r: Result<(), Errors>)
        ensures
            r is Ok <==> self.valid(),
            r matches Err(e) ==> e is Validation,
    {
        match self.h.validate() {
            Ok(_) => {},
            Err(e) => {
                return Err(e);
            },
        }
        match self.s.validate() {
            Ok(_) => {},
            Err(e) => {
                return Err(e);
            },
        }
        match self.l.validate() {
            Ok(_) => {},
            Err(e) => {
                return Err(e);
            },
        }
        Ok(())
    }

    /// Parses `hue,saturation,lightness`.
    pub fn from_str(string: &str) -> (r: Result<Hsl, Errors>)
        ensures
            r is Ok <==> spec_hsl_ok(string@),
            r matches Ok(v) ==> {
                &&& v.h.value as int == decimal_num(spec_split(string@, ',')[0])
                &&& v.s.value as int == decimal_num(spec_split(string@, ',')[1])
                &&& v.l.value as int == decimal_num(spec_split(string@, ',')[2])
            },
            r matches Err(e) ==> e is Validation,
    {
        let params = split_char(string, ',');
        if params.len() != 3 {
            return Err(
                Errors::Validation(String::from_str("excpected 3 elements for an hsl color")),
            );
        }
        let h = match Hue::from_str(params[0].as_str()) {
            Ok(v) => v,
            Err(e) => {
                return Err(e);
            },
        };
        let s = match Saturation::from_str(params[1].as_str()) {
            Ok(v) => v,
            Err(e) => {
                return Err(e);
            },
        };
        let l = match Lightness::from_str(params[2].as_str()) {
            Ok(v) => v,
            Err(e) => {
                return Err(e);
            },
        };
        Ok(Hsl { h, s, l })
    }
}

} // verus!

use vstd::prelude::*;

verus! {

/// The hues of one interval, in ascending order, both ends included.
pub open spec fn interval_hues(iv: HueInterval) -> Seq<u16> {
    Seq::new((iv.end.value - iv.start.value + 1) as nat, |k: int| (iv.start.value + k) as u16)
}

/// The hues of the intervals, concatenated in interval order.
pub open spec fn concat_hues(ivs: Seq<HueInterval>) -> Seq<u16>
    decreases ivs.len(),
{
    if ivs.len() == 0 {
        Seq::empty()
    } else {
        concat_hues(ivs.drop_last()) + interval_hues(ivs.last())
    }
}

/// No two positions of `a` hold the same color.
pub open spec fn colors_distinct(a: Seq<Hsl>) -> bool {
    forall|i: int, j: int| 0 <= i < j < a.len() ==> a[i] != a[j]
}

/// No color occurs in both `a` and `b`.
pub open spec fn colors_disjoint(a: Seq<Hsl>, b: Seq<Hsl>) -> bool {
    forall|i: int, j: int| 0 <= i < a.len() && 0 <= j < b.len() ==> a[i] != b[j]
}

/// Every color of `a` was produced by the generator `p`: its hue has been
/// generated, and saturation and lightness are the configured ones.
pub open spec fn colors_from_params(a: Seq<Hsl>, p: ColorParams) -> bool {
    forall|i: int|
        0 <= i < a.len() ==> {
            &&& p.spec_generated().contains((#[trigger] a[i]).h.value)
            &&& a[i].s == p.spec_saturation()
            &&& a[i].l == p.spec_lightness()
            &&& a[i].valid()
        }
}

/// The generator state from which `init_colors` lays the pool out evenly: a
/// fresh cursor over a duplicate-free hue list, the cycle equal to the pool
/// size, and at least as many hues as pool slots.
pub open spec fn spec_even_start(p: &ColorParams) -> bool {
    &&& p.spec_generated().len() == 0
    &&& p.spec_step() == 0
    &&& p.spec_cycle() == p.spec_init_count() as int
    &&& 1 <= p.spec_init_count() as int <= p.spec_hues().len()
    &&& p.spec_hues().no_duplicates()
}

/// At step `i` of an evenly-spread pass over `hc` hues with cycle `cnt`, the
/// cursor's index `i` times the spacing stays inside the list.
proof fn lemma_even_candidate(hc: int, cnt: int, i: int)
    requires
        1 <= cnt <= hc,
        0 <= i < cnt,
    ensures
        1 <= hc / cnt,
        0 <= i * (hc / cnt) <= hc - 1,
{
    broadcast use vstd::arithmetic::div_mod::lemma_fundamental_div_mod;
    broadcast use vstd::arithmetic::div_mod::lemma_mod_bound;

    let hs = hc / cnt;
    assert(hc == cnt * hs + hc % cnt);
    assert(0 <= hc % cnt < cnt);
    assert(hs >= 1) by (nonlinear_arith)
        requires
            1 <= cnt <= hc,
            hc == cnt * hs + hc % cnt,
            0 <= hc % cnt < cnt,
    ;
    assert(0 <= i * hs && i * hs <= (cnt - 1) * hs) by (nonlinear_arith)
        requires
            0 <= i <= cnt - 1,
            hs >= 0,
    ;
    assert((cnt - 1) * hs == cnt * hs - hs) by (nonlinear_arith);
    assert(cnt * hs <= hc);
}

/// A sequence extended by one element still holds everything it held.
proof fn lemma_contains_push<T>(s: Seq<T>, x: T, y: T)
    requires
        s.contains(x),
    ensures
        s.push(y).contains(x),
{
    let i = choose|i: int| 0 <= i < s.len() && s[i] == x;
    assert(s.push(y)[i] == x);
}

/// Whether `v` holds `x`.
fn vec_contains_u16(v: &Vec<u16>, x: u16) -> (b: bool)
    ensures
        b == v@.contains(x),
{
    let mut i: usize = 0;
    while i < v.len()
        invariant
            0 <= i <= v@.len(),
            forall|j: int| 0 <= j < i ==> v@[j] != x,
        decreases v@.len() - i,
    {
        if v[i] == x {
            return true;
        }
        i = i + 1;
    }
    false
}

/// Whether `v` holds `c`.
fn vec_contains_hsl(v: &Vec<Hsl>, c: Hsl) -> (b: bool)
    ensures
        b == v@.contains(c),
{
    let mut i: usize = 0;
    while i < v.len()
        invariant
            0 <= i <= v@.len(),
            forall|j: int| 0 <= j < i ==> v@[j] != c,
        decreases v@.len() - i,
    {
        if v[i] == c {
            return true;
        }
        i = i + 1;
    }
    false
}

/// The position of the first occurrence of `c` in `v`, if any.
fn index_of_hsl(v: &Vec<Hsl>, c: Hsl) -> (r: Option<usize>)
    ensures
        r matches Some(i) ==> i < v@.len() && v@[i as int] == c && (forall|j: int|
            0 <= j < i ==> v@[j] != c),
        r is None ==> !v@.contains(c),
{
    let mut i: usize = 0;
    while i < v.len()
        invariant
            0 <= i <= v@.len(),
            forall|j: int| 0 <= j < i ==> v@[j] != c,
        decreases v@.len() - i,
    {
        if v[i] == c {
            return Some(i);
        }
        i = i + 1;
    }
    None
}

/// An element-for-element copy.
fn clone_vec_u16(v: &Vec<u16>) -> (r: Vec<u16>)
    ensures
        r@ == v@,
{
    let mut r: Vec<u16> = Vec::new();
    let mut i: usize = 0;
    while i < v.len()
        invariant
            0 <= i <= v@.len(),
            r@ == v@.take(i as int),
        decreases v@.len() - i,
    {
        r.push(v[i]);
        proof {
            assert(r@ =~= v@.take(i + 1));
        }
        i = i + 1;
    }
    proof {
        assert(v@.take(v@.len() as int) =~= v@);
    }
    r
}

/// The deterministic generator state: a coarseness cursor over the hue list
/// plus the set of hues already handed out.
struct ColorGeneratorState {
    step: usize,
    cycle_size: usize,
    hue_count: usize,
    generated_hues: Vec<u16>,
}

/// The color generator: the ordered hue list from the configured intervals,
/// the fixed saturation and lightness, and the generator state.
pub struct ColorParams {
    pod_cnt: u8,
    saturation: Saturation,
    lightness: Lightness,
    hue_values: Vec<u16>,
    state: ColorGeneratorState,
}

impl Clone for ColorParams {
    fn clone(&self) -> (r: Self)
        ensures
            r.spec_hues() == self.spec_hues(),
            r.spec_generated() == self.spec_generated(),
            r.spec_saturation() == self.spec_saturation(),
            r.spec_lightness() == self.spec_lightness(),
            r.spec_init_count() == self.spec_init_count(),
            self.wf() ==> r.wf(),
    {
        ColorParams {
            pod_cnt: self.pod_cnt,
            saturation: self.saturation,
            lightness: self.lightness,
            hue_values: clone_vec_u16(&self.hue_values),
            state: ColorGeneratorState {
                step: self.state.step,
                cycle_size: self.state.cycle_size,
                hue_count: self.state.hue_count,
                generated_hues: clone_vec_u16(&self.state.generated_hues),
            },
        }
    }
}

impl ColorParams {
    /// The full ordered hue list.
    pub closed spec fn spec_hues(&self) -> Seq<u16> {
        self.hue_values@
    }

    /// The hues already handed out, in generation order.
    pub closed spec fn spec_generated(&self) -> Seq<u16> {
        self.state.generated_hues@
    }

    /// The configured saturation.
    pub closed spec fn spec_saturation(&self) -> Saturation {
        self.saturation
    }

    /// The configured lightness.
    pub closed spec fn spec_lightness(&self) -> Lightness {
        self.lightness
    }

    /// How many colors `init_colors` aims to produce.
    pub closed spec fn spec_init_count(&self) -> u8 {
        self.pod_cnt
    }

    /// The cursor's step counter.
    pub closed spec fn spec_step(&self) -> int {
        self.state.step as int
    }

    /// The cursor's current cycle length.
    pub closed spec fn spec_cycle(&self) -> int {
        self.state.cycle_size as int
    }

    /// The hue index the cursor points at: the step times the spacing, held
    /// below the list's end.
    pub open spec fn spec_candidate(&self) -> int {
        let hs = self.spec_hues().len() as int / self.spec_cycle();
        if hs * self.spec_step() <= self.spec_hues().len() - 1 {
            hs * self.spec_step()
        } else {
            self.spec_hues().len() - 1
        }
    }

    /// The generator's internal consistency: a non-empty hue list on the
    /// wheel, a positive cycle, valid percentages, and a duplicate-free
    /// generated set drawn from the hue list.
    pub closed spec fn wf(&self) -> bool {
        &&& self.state.hue_count == self.hue_values@.len()
        &&& self.hue_values@.len() >= 1
        &&& self.state.cycle_size >= 1
        &&& self.saturation.valid()
        &&& self.lightness.valid()
        &&& forall|i: int| 0 <= i < self.hue_values@.len() ==> #[trigger] self.hue_values@[i] <= 359
        &&& forall|i: int|
            0 <= i < self.state.generated_hues@.len() ==> self.hue_values@.contains(
                #[trigger] self.state.generated_hues@[i],
            )
        &&& forall|i: int, j: int|
            0 <= i < j < self.state.generated_hues@.len()
                ==> self.state.generated_hues@[i] != self.state.generated_hues@[j]
    }

    /// Whether some configured hue has not been generated yet. While this
    /// holds, the generator still has a fresh color to give.
    pub open spec fn some_hue_ungenerated(&self) -> bool {
        exists|i: int|
            0 <= i < self.spec_hues().len() && !self.spec_generated().contains(
                #[trigger] self.spec_hues()[i],
            )
    }

    /// Builds the generator from validated settings: the hue list is the
    /// configured intervals written out in order, nothing is generated yet,
    /// and the initial cycle length is the expected pod count (at least one).
    pub fn new(settings: &SettingsValidated, pod_cnt: usize) -> (r: ColorParams)
        requires
            settings.wf(),
        ensures
            r.wf(),
            r.spec_hues() == concat_hues(settings.hue_intervals@),
            r.spec_generated() == Seq::<u16>::empty(),
            r.spec_saturation() == settings.color_saturation,
            r.spec_lightness() == settings.color_lightness,
            r.spec_init_count() as int == if pod_cnt > 255 {
                255
            } else {
                pod_cnt as int
            },
            r.spec_step() == 0,
            r.spec_cycle() == if pod_cnt == 0 {
                1int
            } else {
                pod_cnt as int
            },
    {
        let mut hue_values: Vec<u16> = Vec::new();
        let mut i: usize = 0;
        while i < settings.hue_intervals.len()
            invariant
                0 <= i <= settings.hue_intervals@.len(),
                settings.wf(),
                hue_values@ == concat_hues(settings.hue_intervals@.take(i as int)),
                forall|k: int| 0 <= k < hue_values@.len() ==> #[trigger] hue_values@[k] <= 359,
            decreases settings.hue_intervals@.len() - i,
        {
            let iv = settings.hue_intervals[i];
            let ghost pre = hue_values@;
            let mut v: u16 = iv.start.value;
            proof {
                assert(iv.valid());
            }
            while v <= iv.end.value
                invariant
                    iv.valid(),
                    iv.start.value <= v <= iv.end.value + 1,
                    hue_values@ == pre + Seq::new(
                        (v - iv.start.value) as nat,
                        |k: int| (iv.start.value + k) as u16,
                    ),
                    forall|k: int| 0 <= k < hue_values@.len() ==> #[trigger] hue_values@[k] <= 359,
                decreases iv.end.value + 1 - v,
            {
                hue_values.push(v);
                v = v + 1;
                proof {
                    assert(hue_values@ =~= pre + Seq::new(
                        (v - iv.start.value) as nat,
                        |k: int| (iv.start.value + k) as u16,
                    ));
                }
            }
            i = i + 1;
            proof {
                assert(hue_values@ =~= pre + interval_hues(iv));
                assert(settings.hue_intervals@.take(i as int).drop_last() =~= settings.hue_intervals@.take(
                    i as int - 1,
                ));
                assert(hue_values@ =~= concat_hues(settings.hue_intervals@.take(i as int)));
            }
        }
        proof {
            assert(settings.hue_intervals@.take(settings.hue_intervals@.len() as int)
                =~= settings.hue_intervals@);
            assert(interval_hues(settings.hue_intervals@.last()).len() >= 1);
        }
        let hue_count = hue_values.len();
        let pod_cnt_u8: u8 = if pod_cnt > 255 {
            255
        } else {
            pod_cnt as u8
        };
        let cycle_size: usize = if pod_cnt == 0 {
            1
        } else {
            pod_cnt
        };
        ColorParams {
            pod_cnt: pod_cnt_u8,
            saturation: settings.color_saturation,
            lightness: settings.color_lightness,
            hue_values,
            state: ColorGeneratorState {
                step: 0,
                cycle_size,
                hue_count,
                generated_hues: Vec::new(),
            },
        }
    }

    /// Synthesizes the next color. The hue comes from the configured list:
    /// the cursor walk tries the maximally-separated candidates first; when
    /// it gives up without a find, any still-ungenerated hue is taken in
    /// list order. So the result is fresh and recorded as long as any
    /// configured hue is ungenerated; only full exhaustion hands an
    /// already-generated hue out again (duplicate colors rather than
    /// failure).
    fn next_color(&mut self) -> (c: Hsl)
        requires
            old(self).wf(),
        ensures
            final(self).wf(),
            final(self).spec_hues() == old(self).spec_hues(),
            final(self).spec_saturation() == old(self).spec_saturation(),
            final(self).spec_lightness() == old(self).spec_lightness(),
            final(self).spec_init_count() == old(self).spec_init_count(),
            c.s == old(self).spec_saturation(),
            c.l == old(self).spec_lightness(),
            c.valid(),
            final(self).spec_hues().contains(c.h.value),
            old(self).some_hue_ungenerated() ==> !old(self).spec_generated().contains(c.h.value)
                && final(self).spec_generated() == old(self).spec_generated().push(c.h.value),
            !old(self).some_hue_ungenerated() ==> old(self).spec_generated().contains(c.h.value)
                && final(self).spec_generated() == old(self).spec_generated(),
            old(self).spec_step() < old(self).spec_cycle() && !old(
                self,
            ).spec_generated().contains(old(self).spec_hues()[old(self).spec_candidate()]) ==> {
                &&& c.h.value == old(self).spec_hues()[old(self).spec_candidate()]
                &&& final(self).spec_step() == old(self).spec_step() + 1
                &&& final(self).spec_cycle() == old(self).spec_cycle()
            },
    {
        let ghost fresh_at_cursor = old(self).spec_step() < old(self).spec_cycle() && !old(
            self,
        ).spec_generated().contains(old(self).spec_hues()[old(self).spec_candidate()]);
        let mut tries: usize = 0;
        let bound: usize = self.state.hue_count;
        loop
            invariant
                self.wf(),
                tries <= bound,
                bound == self.state.hue_count,
                self.hue_values@ == old(self).hue_values@,
                self.saturation == old(self).saturation,
                self.lightness == old(self).lightness,
                self.pod_cnt == old(self).pod_cnt,
                self.state.generated_hues@ == old(self).state.generated_hues@,
                self.state.hue_count == old(self).state.hue_count,
                fresh_at_cursor == (old(self).spec_step() < old(self).spec_cycle() && !old(
                    self,
                ).spec_generated().contains(old(self).spec_hues()[old(self).spec_candidate()])),
                tries == 0 ==> self.state.step == old(self).state.step
                    && self.state.cycle_size == old(self).state.cycle_size,
                tries > 0 ==> !fresh_at_cursor,
            decreases bound - tries,
        {
            let ghost first = tries == 0;
            if self.state.step >= self.state.cycle_size {
                self.state.step = 1;
                match self.state.cycle_size.checked_mul(2) {
                    Some(doubled) => {
                        if doubled <= self.state.hue_count {
                            self.state.cycle_size = doubled;
                        }
                    },
                    None => {},
                }
            }
            let hue_step = self.state.hue_count / self.state.cycle_size;
            let idx = match hue_step.checked_mul(self.state.step) {
                Some(p) => {
                    if p <= self.state.hue_count - 1 {
                        p
                    } else {
                        self.state.hue_count - 1
                    }
                },
                None => self.state.hue_count - 1,
            };
            let hue = self.hue_values[idx];
            let already = vec_contains_u16(&self.state.generated_hues, hue);
            proof {
                if first && old(self).spec_step() < old(self).spec_cycle() {
                    assert(idx as int == old(self).spec_candidate());
                }
            }
            if !already {
                proof {
                    assert(!old(self).spec_generated().contains(old(self).spec_hues()[idx as int]));
                    assert(old(self).some_hue_ungenerated());
                }
                self.state.generated_hues.push(hue);
                self.state.step = match self.state.step.checked_add(1) {
                    Some(s) => s,
                    None => self.state.cycle_size,
                };
                return Hsl { h: Hue { value: hue }, s: self.saturation, l: self.lightness };
            }
            if tries >= bound {
                let mut k: usize = 0;
                let n = self.hue_values.len();
                while k < n
                    invariant
                        self.wf(),
                        0 <= k <= n,
                        n == self.hue_values@.len(),
                        self.hue_values@ == old(self).hue_values@,
                        self.saturation == old(self).saturation,
                        self.lightness == old(self).lightness,
                        self.pod_cnt == old(self).pod_cnt,
                        self.state.generated_hues@ == old(self).state.generated_hues@,
                        self.state.hue_count == old(self).state.hue_count,
                        fresh_at_cursor == (old(self).spec_step() < old(self).spec_cycle() && !old(
                            self,
                        ).spec_generated().contains(
                            old(self).spec_hues()[old(self).spec_candidate()],
                        )),
                        !fresh_at_cursor,
                        forall|j: int|
                            0 <= j < k ==> self.state.generated_hues@.contains(
                                #[trigger] self.hue_values@[j],
                            ),
                    decreases n - k,
                {
                    let v = self.hue_values[k];
                    let have = vec_contains_u16(&self.state.generated_hues, v);
                    if !have {
                        proof {
                            assert(!old(self).spec_generated().contains(
                                old(self).spec_hues()[k as int],
                            ));
                            assert(old(self).some_hue_ungenerated());
                        }
                        self.state.generated_hues.push(v);
                        self.state.step = match self.state.step.checked_add(1) {
                            Some(s) => s,
                            None => self.state.cycle_size,
                        };
                        return Hsl { h: Hue { value: v }, s: self.saturation, l: self.lightness };
                    }
                    k = k + 1;
                }
                proof {
                    assert(!old(self).some_hue_ungenerated());
                }
                self.state.step = match self.state.step.checked_add(1) {
                    Some(s) => s,
                    None => self.state.cycle_size,
                };
                return Hsl { h: Hue { value: hue }, s: self.saturation, l: self.lightness };
            }
            self.state.step = match self.state.step.checked_add(1) {
                Some(s) => s,
                None => self.state.cycle_size,
            };
            tries = tries + 1;
        }
    }

    /// Produces the initial color pool: the expected pod count of
    /// pairwise-distinct, evenly-spread colors whenever the hue list offers
    /// that many distinct hues (and never more than the expected count).
    pub fn init_colors(&mut self) -> (colors: Vec<Hsl>)
        requires
            old(self).wf(),
        ensures
            final(self).wf(),
            final(self).spec_hues() == old(self).spec_hues(),
            final(self).spec_saturation() == old(self).spec_saturation(),
            final(self).spec_lightness() == old(self).spec_lightness(),
            final(self).spec_init_count() == old(self).spec_init_count(),
            old(self).spec_generated().is_prefix_of(final(self).spec_generated()),
            colors@.len() <= old(self).spec_init_count(),
            colors_distinct(colors@),
            colors_from_params(colors@, *final(self)),
            old(self).spec_generated().len() == 0 ==> final(self).spec_generated() == colors@.map_values(
                |c: Hsl| c.h.value,
            ),
            old(self).spec_generated().len() == 0 && old(self).spec_init_count() <= old(
                self,
            ).spec_hues().to_set().len() ==> colors@.len() == old(self).spec_init_count(),
            spec_even_start(&*old(self)) ==> forall|k: int|
                0 <= k < colors@.len() ==> (#[trigger] colors@[k]).h.value == old(
                    self,
                ).spec_hues()[k * (old(self).spec_hues().len() as int / old(self).spec_cycle())],
    {
        let ghost even = spec_even_start(&*old(self));
        let ghost hs = old(self).spec_hues().len() as int / old(self).spec_cycle();
        proof {
            if even {
                old(self).hue_values@.unique_seq_to_set();
            }
        }
        let mut colors: Vec<Hsl> = Vec::new();
        let mut i: u8 = 0;
        let count = self.pod_cnt;
        while i < count
            invariant
                self.wf(),
                0 <= i <= count,
                count == old(self).pod_cnt,
                self.hue_values@ == old(self).hue_values@,
                self.saturation == old(self).saturation,
                self.lightness == old(self).lightness,
                self.pod_cnt == old(self).pod_cnt,
                self.state.hue_count == old(self).state.hue_count,
                old(self).state.generated_hues@.is_prefix_of(self.state.generated_hues@),
                colors@.len() <= i,
                colors_distinct(colors@),
                colors_from_params(colors@, *self),
                old(self).state.generated_hues@.len() == 0 ==> self.state.generated_hues@
                    == colors@.map_values(|c: Hsl| c.h.value),
                old(self).state.generated_hues@.len() == 0 && count <= old(
                    self,
                ).hue_values@.to_set().len() ==> colors@.len() == i,
                even == spec_even_start(&*old(self)),
                hs == old(self).spec_hues().len() as int / old(self).spec_cycle(),
                even ==> {
                    &&& self.state.step as int == i as int
                    &&& self.state.cycle_size == old(self).state.cycle_size
                    &&& colors@.len() == i
                    &&& forall|k: int|
                        0 <= k < colors@.len() ==> (#[trigger] colors@[k]).h.value == old(
                            self,
                        ).hue_values@[k * hs]
                },
            decreases count - i,
        {
            let ghost prev = *self;
            proof {
                if even {
                    old(self).hue_values@.unique_seq_to_set();
                }
                if old(self).state.generated_hues@.len() == 0 && count <= old(
                    self,
                ).hue_values@.to_set().len() {
                    assert(prev.spec_generated().len() == colors@.len());
                    lemma_ungenerated_hue_exists(prev.spec_hues(), prev.spec_generated());
                    assert(prev.some_hue_ungenerated());
                }
                if even {
                    let hc = prev.spec_hues().len() as int;
                    let cnt = old(self).spec_cycle();
                    lemma_even_candidate(hc, cnt, i as int);
                    assert(prev.spec_cycle() == cnt);
                    assert(hc / cnt == hs);
                    assert(hs * prev.spec_step() == i as int * hs) by (nonlinear_arith)
                        requires
                            prev.spec_step() == i as int,
                    ;
                    assert(prev.spec_candidate() == i as int * hs);
                    assert(!prev.spec_generated().contains(
                        prev.spec_hues()[prev.spec_candidate()],
                    )) by {
                        if prev.spec_generated().contains(prev.spec_hues()[i as int * hs]) {
                            let w = choose|w: int|
                                0 <= w < prev.spec_generated().len() && prev.spec_generated()[w]
                                    == prev.spec_hues()[i as int * hs];
                            assert(colors@.map_values(|cc: Hsl| cc.h.value)[w]
                                == prev.spec_generated()[w]);
                            assert(colors@[w].h.value == old(self).hue_values@[w * hs]);
                            lemma_even_candidate(hc, cnt, w);
                            assert(w * hs < i as int * hs) by (nonlinear_arith)
                                requires
                                    0 <= w < i as int,
                                    hs >= 1,
                            ;
                            assert(prev.spec_hues()[w * hs] == prev.spec_hues()[i as int * hs]);
                            assert(false);
                        }
                    }
                    assert(prev.spec_step() < prev.spec_cycle());
                }
            }
            let c = self.next_color();
            proof {
                if !prev.spec_generated().contains(c.h.value) {
                    assert(self.spec_generated().last() == c.h.value);
                }
                assert(self.spec_generated().contains(c.h.value));
                assert forall|k: int| 0 <= k < colors@.len() implies self.spec_generated()
                    .contains((#[trigger] colors@[k]).h.value) by {
                    if self.spec_generated() != prev.spec_generated() {
                        lemma_contains_push(prev.spec_generated(), colors@[k].h.value, c.h.value);
                    }
                }
            }
            proof {
                if old(self).state.generated_hues@.len() == 0 {
                    if !prev.spec_generated().contains(c.h.value) {
                        if colors@.contains(c) {
                            let k = choose|k: int| 0 <= k < colors@.len() && colors@[k] == c;
                            assert(colors@.map_values(|cc: Hsl| cc.h.value)[k] == c.h.value);
                            assert(prev.spec_generated().contains(c.h.value));
                        }
                        assert(!colors@.contains(c));
                    } else {
                        let k = choose|k: int|
                            0 <= k < prev.spec_generated().len() && prev.spec_generated()[k]
                                == c.h.value;
                        assert(colors@.map_values(|cc: Hsl| cc.h.value)[k] == c.h.value);
                        assert(colors@[k].h == c.h);
                        assert(colors@[k] == c);
                        assert(colors@.contains(c));
                    }
                }
            }
            let dup = vec_contains_hsl(&colors, c);
            if !dup {
                let ghost before = colors@;
                colors.push(c);
                proof {
                    assert forall|k: int| 0 <= k < colors@.len() implies {
                        &&& self.spec_generated().contains((#[trigger] colors@[k]).h.value)
                        &&& colors@[k].s == self.spec_saturation()
                        &&& colors@[k].l == self.spec_lightness()
                        &&& colors@[k].valid()
                    } by {
                        if k < colors@.len() - 1 {
                            assert(colors@[k] == before[k]);
                        }
                    }
                    if old(self).state.generated_hues@.len() == 0 {
                        assert(self.state.generated_hues@ =~= colors@.map_values(
                            |cc: Hsl| cc.h.value,
                        ));
                    }
                    if even {
                        assert(c.h.value == old(self).hue_values@[i as int * hs]);
                        assert forall|k: int|
                            0 <= k < colors@.len() implies (#[trigger] colors@[k]).h.value == old(
                            self,
                        ).hue_values@[k * hs] by {
                            if k < colors@.len() - 1 {
                                assert(colors@[k] == before[k]);
                            }
                        }
                    }
                }
            }
            i = i + 1;
        }
        colors
    }
}

} // verus!

verus! {

/// `s` with the first occurrence of `c` removed, if there is one.
pub open spec fn remove_first_color(s: Seq<Hsl>, c: Hsl) -> Seq<Hsl>
    decreases s.len(),
{
    if s.len() == 0 {
        s
    } else if s[0] == c {
        s.drop_first()
    } else {
        seq![s[0]] + remove_first_color(s.drop_first(), c)
    }
}

/// Removing the first occurrence, located at `i`, is removing index `i`.
proof fn lemma_remove_first_at(s: Seq<Hsl>, c: Hsl, i: int)
    requires
        0 <= i < s.len(),
        s[i] == c,
        forall|j: int| 0 <= j < i ==> s[j] != c,
    ensures
        remove_first_color(s, c) == s.remove(i),
    decreases i,
{
    if i == 0 {
        assert(remove_first_color(s, c) =~= s.remove(0));
    } else {
        assert(s.drop_first()[i - 1] == c);
        assert forall|j: int| 0 <= j < i - 1 implies s.drop_first()[j] != c by {
            assert(s.drop_first()[j] == s[j + 1]);
        }
        lemma_remove_first_at(s.drop_first(), c, i - 1);
        assert(remove_first_color(s, c) =~= s.remove(i));
    }
}

/// Removing an absent color changes nothing.
proof fn lemma_remove_first_absent(s: Seq<Hsl>, c: Hsl)
    requires
        !s.contains(c),
    ensures
        remove_first_color(s, c) == s,
    decreases s.len(),
{
    if s.len() > 0 {
        assert(s[0] != c);
        assert forall|j: int| 0 <= j < s.drop_first().len() implies s.drop_first()[j] != c by {
            assert(s.drop_first()[j] == s[j + 1]);
        }
        assert(!s.drop_first().contains(c));
        lemma_remove_first_absent(s.drop_first(), c);
        assert(remove_first_color(s, c) =~= s);
    }
}

/// The color allocator: a pool of released colors eligible for reuse, the
/// colors currently bound to a pod, and the generator for when the pool is
/// empty.
pub struct Colors {
    available: Vec<Hsl>,
    used: Vec<Hsl>,
    colors_param: ColorParams,
}

impl Colors {
    /// The pool of colors eligible for reuse.
    pub closed spec fn spec_available(&self) -> Seq<Hsl> {
        self.available@
    }

    /// The colors currently bound to a pod.
    pub closed spec fn spec_used(&self) -> Seq<Hsl> {
        self.used@
    }

    /// The generator carried by the allocator.
    pub closed spec fn spec_params(&self) -> ColorParams {
        self.colors_param
    }

    /// The allocator's invariant. In particular: no color is simultaneously
    /// available and used, and the pool holds no duplicate.
    pub open spec fn wf(&self) -> bool {
        &&& self.spec_params().wf()
        &&& colors_disjoint(self.spec_available(), self.spec_used())
        &&& colors_distinct(self.spec_available())
        &&& colors_from_params(self.spec_available(), self.spec_params())
        &&& colors_from_params(self.spec_used(), self.spec_params())
    }

    /// Law: no color is simultaneously in the `available` pool and in `used`;
    /// `new`, `get_new_color` and `set_color_to_unused` each ensure `wf`, so
    /// the invariant holds after every call.
    pub proof fn lemma_used_available_disjoint(c: &Colors)
        requires
            c.wf(),
        ensures
            colors_disjoint(c.spec_available(), c.spec_used()),
    {
    }

    /// Starts the allocator with a generated pool — one color per expected
    /// pod whenever the hue list offers that many distinct hues — and
    /// nothing in use.
    pub fn new(colors_param: &mut ColorParams) -> (r: Colors)
        requires
            old(colors_param).wf(),
        ensures
            final(colors_param).wf(),
            r.wf(),
            r.spec_used() == Seq::<Hsl>::empty(),
            r.spec_available().len() <= old(colors_param).spec_init_count(),
            colors_distinct(r.spec_available()),
            r.spec_params().spec_hues() == old(colors_param).spec_hues(),
            r.spec_params().spec_generated() == final(colors_param).spec_generated(),
            r.spec_params().spec_saturation() == old(colors_param).spec_saturation(),
            r.spec_params().spec_lightness() == old(colors_param).spec_lightness(),
            old(colors_param).spec_generated().len() == 0 ==> r.spec_available().map_values(
                |c: Hsl| c.h.value,
            ) == r.spec_params().spec_generated(),
            old(colors_param).spec_generated().len() == 0 && old(colors_param).spec_init_count()
                <= old(colors_param).spec_hues().to_set().len() ==> r.spec_available().len() == old(
                colors_param,
            ).spec_init_count(),
            spec_even_start(&*old(colors_param)) ==> forall|k: int|
                0 <= k < r.spec_available().len() ==> (#[trigger] r.spec_available()[k]).h.value
                    == old(colors_param).spec_hues()[k * (old(
                    colors_param,
                ).spec_hues().len() as int / old(colors_param).spec_cycle())],
    {
        let colors = colors_param.init_colors();
        let r = Colors { available: colors, used: Vec::new(), colors_param: colors_param.clone() };
        proof {
            assert(colors_from_params(r.spec_available(), r.spec_params()));
        }
        r
    }

    /// Hands out a color: the most recently released one if the pool is
    /// non-empty (recycling before generation), else a newly generated one —
    /// with a fresh hue as long as any configured hue is ungenerated. Never
    /// fails.
    pub fn get_new_color(&mut self) -> (c: Hsl)
        requires
            old(self).wf(),
        ensures
            final(self).wf(),
            c.valid(),
            c.s == old(self).spec_params().spec_saturation(),
            c.l == old(self).spec_params().spec_lightness(),
            final(self).spec_used() == old(self).spec_used().push(c),
            old(self).spec_available().len() > 0 ==> {
                &&& c == old(self).spec_available().last()
                &&& final(self).spec_available() == old(self).spec_available().drop_last()
                &&& final(self).spec_params() == old(self).spec_params()
            },
            old(self).spec_available().len() == 0 ==> {
                &&& final(self).spec_available().len() == 0
                &&& final(self).spec_params().spec_hues() == old(self).spec_params().spec_hues()
                &&& final(self).spec_params().spec_hues().contains(c.h.value)
                &&& (old(self).spec_params().some_hue_ungenerated()
                    ==> !old(self).spec_params().spec_generated().contains(c.h.value)
                    && final(self).spec_params().spec_generated()
                        == old(self).spec_params().spec_generated().push(c.h.value))
                &&& (!old(self).spec_params().some_hue_ungenerated()
                    ==> old(self).spec_params().spec_generated().contains(c.h.value)
                    && final(self).spec_params().spec_generated()
                        == old(self).spec_params().spec_generated())
            },
    {
        let c = match self.available.pop() {
            Some(c) => c,
            None => self.colors_param.next_color(),
        };
        self.used.push(c);
        proof {
            let av = self.spec_available();
            let us = self.spec_used();
            let oav = old(self).spec_available();
            let ous = old(self).spec_used();
            if oav.len() > 0 {
                assert forall|x: int, y: int|
                    0 <= x < av.len() && 0 <= y < us.len() implies av[x] != us[y] by {
                    assert(av[x] == oav[x]);
                    if y < ous.len() {
                        assert(us[y] == ous[y]);
                    } else {
                        assert(us[y] == oav[oav.len() - 1]);
                    }
                }
                assert(colors_from_params(us, self.spec_params()));
            } else {
                assert forall|k: int| 0 <= k < us.len() implies {
                    &&& self.spec_params().spec_generated().contains((#[trigger] us[k]).h.value)
                    &&& us[k].s == self.spec_params().spec_saturation()
                    &&& us[k].l == self.spec_params().spec_lightness()
                    &&& us[k].valid()
                } by {
                    if k < ous.len() {
                        assert(us[k] == ous[k]);
                        if self.spec_params().spec_generated()
                            != old(self).spec_params().spec_generated() {
                            lemma_contains_push(
                                old(self).spec_params().spec_generated(),
                                us[k].h.value,
                                c.h.value,
                            );
                        }
                    } else {
                        assert(us[k] == c);
                        if !old(self).spec_params().spec_generated().contains(c.h.value) {
                            assert(self.spec_params().spec_generated().last() == c.h.value);
                        }
                    }
                }
            }
        }
        c
    }

    /// Releases a color: moves it from `used` back to the pool. A color that
    /// is not currently used is left alone (a concurrent release may already
    /// have recycled it), and a color still used by another pod is not yet
    /// pooled.
    pub fn set_color_to_unused(&mut self, color: Hsl)
        requires
            old(self).wf(),
        ensures
            final(self).wf(),
            final(self).spec_used() == remove_first_color(old(self).spec_used(), color),
            final(self).spec_available() == (if old(self).spec_used().contains(color)
                && !remove_first_color(old(self).spec_used(), color).contains(color) {
                old(self).spec_available().push(color)
            } else {
                old(self).spec_available()
            }),
            final(self).spec_params() == old(self).spec_params(),
    {
        match index_of_hsl(&self.used, color) {
            Some(i) => {
                self.used.remove(i);
                proof {
                    lemma_remove_first_at(old(self).spec_used(), color, i as int);
                    assert forall|k: int|
                        0 <= k < self.spec_used().len() implies exists|m: int|
                        0 <= m < old(self).spec_used().len() && old(self).spec_used()[m]
                            == #[trigger] self.spec_used()[k] by {
                        if k < i {
                            assert(old(self).spec_used()[k] == self.spec_used()[k]);
                        } else {
                            assert(old(self).spec_used()[k + 1] == self.spec_used()[k]);
                        }
                    }
                    assert(colors_from_params(self.spec_used(), self.spec_params()));
                    assert(colors_disjoint(self.spec_available(), self.spec_used()));
                }
                let still = vec_contains_hsl(&self.used, color);
                if !still {
                    proof {
                        assert(old(self).spec_used()[i as int] == color);
                        assert(old(self).spec_used().contains(color));
                    }
                    self.available.push(color);
                    proof {
                        let av = self.spec_available();
                        let oav = old(self).spec_available();
                        assert forall|x: int, y: int|
                            0 <= x < y < av.len() implies av[x] != av[y] by {
                            if y == av.len() - 1 {
                                assert(av[x] == oav[x]);
                                assert(av[y] == color);
                            } else {
                                assert(av[x] == oav[x]);
                                assert(av[y] == oav[y]);
                            }
                        }
                        assert forall|x: int, y: int|
                            0 <= x < av.len() && 0 <= y < self.spec_used().len() implies av[x]
                            != self.spec_used()[y] by {
                            if x < oav.len() {
                                assert(av[x] == oav[x]);
                            } else {
                                assert(av[x] == color);
                            }
                        }
                        assert(colors_from_params(av, self.spec_params()));
                    }
                }
            },
            None => {
                proof {
                    lemma_remove_first_absent(old(self).spec_used(), color);
                }
            },
        }
    }

    /// How many colors the pool holds.
    pub fn available_len(&self) -> (n: usize)
        ensures
            n == self.spec_available().len(),
    {
        self.available.len()
    }

    /// How many colors are bound to a pod.
    pub fn used_len(&self) -> (n: usize)
        ensures
            n == self.spec_used().len(),
    {
        self.used.len()
    }

    /// Whether the pool holds `c`.
    pub fn available_contains(&self, c: Hsl) -> (b: bool)
        ensures
            b == self.spec_available().contains(c),
    {
        vec_contains_hsl(&self.available, c)
    }

    /// Whether `c` is bound to a pod.
    pub fn used_contains(&self, c: Hsl) -> (b: bool)
        ensures
            b == self.spec_used().contains(c),
    {
        vec_contains_hsl(&self.used, c)
    }
}

/// Law: colors issued from fresh hues are pairwise distinct. If every hue of
/// `issued` was, at its turn, neither generated before the run began (`init`)
/// nor issued earlier in the run — which `next_color`'s contract guarantees
/// for as long as any configured hue is ungenerated — then `issued` holds no
/// duplicate: as many pairwise-distinct colors as there are calls, until the
/// configured hues run out.
pub proof fn lemma_fresh_hues_distinct(issued: Seq<u16>, init: Seq<u16>)
    requires
        forall|k: int|
            0 <= k < issued.len() ==> !init.contains(#[trigger] issued[k]) && !issued.take(
                k,
            ).contains(issued[k]),
    ensures
        forall|i: int, j: int| 0 <= i < j < issued.len() ==> issued[i] != issued[j],
{
    assert forall|i: int, j: int| 0 <= i < j < issued.len() implies issued[i] != issued[j] by {
        if issued[i] == issued[j] {
            assert(issued.take(j)[i] == issued[j]);
            assert(issued.take(j).contains(issued[j]));
        }
    }
}

} // verus!

verus! {

/// While fewer hues have been generated than the hue list holds distinct
/// values, some position of the list is still ungenerated (the generated
/// hues are pairwise distinct, so they cannot cover the list).
proof fn lemma_ungenerated_hue_exists(hues: Seq<u16>, generated: Seq<u16>)
    requires
        forall|i: int, j: int| 0 <= i < j < generated.len() ==> generated[i] != generated[j],
        generated.len() < hues.to_set().len(),
    ensures
        exists|i: int| 0 <= i < hues.len() && !generated.contains(#[trigger] hues[i]),
{
    broadcast use vstd::seq_lib::seq_to_set_is_finite;

    if forall|i: int| 0 <= i < hues.len() ==> generated.contains(#[trigger] hues[i]) {
        assert forall|i: int, j: int|
            0 <= i < generated.len() && 0 <= j < generated.len() && i != j implies generated[i]
            != generated[j] by {}
        generated.unique_seq_to_set();
        assert(hues.to_set().subset_of(generated.to_set())) by {
            assert forall|x: u16| hues.to_set().contains(x) implies generated.to_set().contains(
                x,
            ) by {
                let w = choose|w: int| 0 <= w < hues.len() && hues[w] == x;
                assert(generated.contains(x));
            }
        }
        vstd::set_lib::lemma_len_subset(hues.to_set(), generated.to_set());
        assert(false);
    }
}

} // verus!
