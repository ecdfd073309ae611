//! Modality rescale and VOI windowing in exact integer arithmetic.
//!
//! Attribute values are short decimals (`mantissa / 10^scale`). Every value
//! of the pipeline is brought to one integer scale, so the stages are exact
//! and the final min-max normalization, which depends only on the order and
//! the ratios of the values, is computed without rounding anywhere before it.
use vstd::prelude::*;
use crate::metadata::{is_digit, pow10, trim_text, trimmed};
use crate::pixel::{
    decode_samples, grey_values, invert, lemma_max_bounded, max_of, pack_raster, sample_bound, scale_of, view_nat,
    ColorModel, Raster, RenderError,
};
use crate::text::{chars_of, digit_value};

verus! {

/// A decimal number `mantissa / 10^scale` with at most nine significant digits.
#[derive(Debug, Clone, Copy, PartialEq, Eq, Structural)]
pub struct Decimal {
    pub mantissa: i64,
    pub scale: u32,
}

impl Decimal {
    pub open spec fn wf(&self) -> bool {
        -1_000_000_000 < self.mantissa < 1_000_000_000 && self.scale <= 9
    }
}

/// Reads digits and at most one point left to right: the digits read so far
/// give `m`, `n` counts them and `f` counts those after the point. Stops with
/// `None` at any other character, a second point, or a tenth digit.
pub open spec fn scan_decimal(b: Seq<char>, seen_point: bool, m: nat, n: nat, f: nat) -> Option<(nat, nat, nat)>
    decreases b.len(),
{
    if b.len() == 0 {
        Some((m, n, f))
    } else {
        let rest = b.subrange(1, b.len() as int);
        if b[0] == '.' {
            if seen_point { None } else { scan_decimal(rest, true, m, n, f) }
        } else if is_digit(b[0]) {
            if n >= 9 {
                None
            } else {
                scan_decimal(rest, seen_point, m * 10 + digit_value(b[0]), n + 1, if seen_point { f + 1 } else { f })
            }
        } else {
            None
        }
    }
}

pub open spec fn has_sign(t: Seq<char>) -> bool {
    t.len() > 0 && (t[0] == '-' || t[0] == '+')
}

/// The decimal that a text holds: white space around it, an optional sign,
/// then digits with at most one point, at least one and at most nine digits.
/// Yields `(mantissa, scale)`.
pub open spec fn decimal_text(s: Seq<char>) -> Option<(int, nat)> {
    let t = trimmed(s);
    let b = if has_sign(t) { t.subrange(1, t.len() as int) } else { t };
    match scan_decimal(b, false, 0, 0, 0) {
        Some((m, n, f)) => if n == 0 {
            None
        } else if t.len() > 0 && t[0] == '-' {
            Some((-m, f))
        } else {
            Some((m as int, f))
        },
        None => None,
    }
}

proof fn lemma_scan_bounds(b: Seq<char>, seen_point: bool, m: nat, n: nat, f: nat)
    requires
        n <= 9,
        m < pow10(n),
        f <= n,
    ensures
        scan_decimal(b, seen_point, m, n, f) matches Some((m2, n2, f2)) ==> n2 <= 9 && m2 < pow10(n2) && f2 <= n2 && n <= n2,
    decreases b.len(),
{
    if b.len() > 0 {
        let rest = b.subrange(1, b.len() as int);
        if b[0] == '.' {
            if !seen_point {
                lemma_scan_bounds(rest, true, m, n, f);
            }
        } else if is_digit(b[0]) && n < 9 {
            assert(digit_value(b[0]) < 10);
            assert(pow10(n + 1) == pow10(n) * 10);
            assert(m * 10 + digit_value(b[0]) < pow10(n + 1)) by (nonlinear_arith)
                requires m < pow10(n), digit_value(b[0]) < 10, pow10(n + 1) == pow10(n) * 10;
            lemma_scan_bounds(rest, seen_point, m * 10 + digit_value(b[0]), n + 1, if seen_point { f + 1 } else { f });
        }
    }
}

proof fn lemma_pow10_nine()
    ensures
        pow10(9) == 1_000_000_000,
{
    reveal_with_fuel(pow10, 10);
}

proof fn lemma_pow10_mono(a: nat, b: nat)
    requires
        a <= b,
    ensures
        pow10(a) <= pow10(b),
        pow10(a) >= 1,
    decreases b,
{
    if b > a {
        lemma_pow10_mono(a, (b - 1) as nat);
    } else if a > 0 {
        lemma_pow10_mono((a - 1) as nat, (a - 1) as nat);
    }
}

/// Parses an attribute text as a decimal; `None` where it is not one, or has
/// more than nine significant digits.
pub fn parse_decimal(s: &str) -> (r: Option<Decimal>)
    ensures
        match decimal_text(s@) {
            Some((m, f)) => r == Some(Decimal { mantissa: m as i64, scale: f as u32 }) && m == m as i64 as int,
            None => r is None,
        },
        r matches Some(d) ==> d.wf(),
{
    let t = trim_text(&chars_of(s));
    let signed = t.len() > 0 && (t[0] == '-' || t[0] == '+');
    let negative = t.len() > 0 && t[0] == '-';
    let start: usize = if signed { 1 } else { 0 };
    let ghost b = t@.subrange(start as int, t@.len() as int);
    assert(!signed ==> b =~= t@);
    assert(b == (if has_sign(t@) { t@.subrange(1, t@.len() as int) } else { t@ }));
    let mut seen_point = false;
    let mut m: u64 = 0;
    let mut n: u32 = 0;
    let mut f: u32 = 0;
    let mut i: usize = start;
    proof { reveal_with_fuel(pow10, 1); }
    while i < t.len()
        invariant
            start <= i <= t@.len(),
            t@ == trimmed(s@),
            negative == (t@.len() > 0 && t@[0] == '-'),
            b == (if has_sign(t@) { t@.subrange(1, t@.len() as int) } else { t@ }),
            b == t@.subrange(start as int, t@.len() as int),
            n <= 9,
            m < pow10(n as nat),
            f <= n,
            scan_decimal(b, false, 0, 0, 0) == scan_decimal(t@.subrange(i as int, t@.len() as int), seen_point, m as nat, n as nat, f as nat),
        decreases t@.len() - i,
    {
        let ghost rest = t@.subrange(i as int, t@.len() as int);
        assert(rest[0] == t@[i as int]);
        assert(rest.subrange(1, rest.len() as int) =~= t@.subrange(i + 1, t@.len() as int));
        let c = t[i];
        assert(scan_decimal(rest, seen_point, m as nat, n as nat, f as nat) == if c == '.' {
            if seen_point { None } else { scan_decimal(rest.subrange(1, rest.len() as int), true, m as nat, n as nat, f as nat) }
        } else if is_digit(c) {
            if n >= 9 {
                None
            } else {
                scan_decimal(rest.subrange(1, rest.len() as int), seen_point, (m as nat) * 10 + digit_value(c), (n + 1) as nat,
                    if seen_point { (f + 1) as nat } else { f as nat })
            }
        } else {
            None
        });
        if c == '.' {
            if seen_point {
                return None;
            }
            seen_point = true;
        } else if '0' <= c && c <= '9' {
            if n >= 9 {
                return None;
            }
            proof {
                lemma_pow10_mono(n as nat, 9);
                lemma_pow10_nine();
                assert(pow10(n as nat + 1) == pow10(n as nat) * 10);
                assert((m as nat) * 10 + digit_value(c) < pow10(n as nat + 1)) by (nonlinear_arith)
                    requires m < pow10(n as nat), digit_value(c) < 10, pow10(n as nat + 1) == pow10(n as nat) * 10;
                lemma_pow10_mono(n as nat + 1, 9);
            }
            m = m * 10 + ((c as u32) - ('0' as u32)) as u64;
            n = n + 1;
            if seen_point {
                f = f + 1;
            }
        } else {
            return None;
        }
        i = i + 1;
    }
    assert(t@.subrange(i as int, t@.len() as int) =~= Seq::<char>::empty());
    assert(scan_decimal(Seq::<char>::empty(), seen_point, m as nat, n as nat, f as nat) == Some((m as nat, n as nat, f as nat)));
    if n == 0 {
        return None;
    }
    proof {
        lemma_pow10_mono(n as nat, 9);
        lemma_pow10_nine();
    }
    let mantissa: i64 = if negative { -(m as i64) } else { m as i64 };
    Some(Decimal { mantissa, scale: f })
}

// ----------------------------------------------------------------------------
// Rescale and window on one integer scale
// ----------------------------------------------------------------------------

/// The rescale and window attributes of an image, where present.
#[derive(Debug, Clone, Copy)]
pub struct VoiAttributes {
    pub slope: Option<Decimal>,
    pub intercept: Option<Decimal>,
    /// Window centre and width.
    pub window: Option<(Decimal, Decimal)>,
}

impl VoiAttributes {
    pub open spec fn wf(&self) -> bool {
        &&& (self.slope matches Some(d) ==> d.wf())
        &&& (self.intercept matches Some(d) ==> d.wf())
        &&& (self.window matches Some((c, w)) ==> c.wf() && w.wf())
    }
}

pub open spec fn scale_or_zero(d: Option<Decimal>) -> nat {
    match d {
        Some(x) => x.scale as nat,
        None => 0,
    }
}

pub open spec fn max_nat(a: nat, b: nat) -> nat {
    if a >= b { a } else { b }
}

/// The number of decimal places that every attribute fits: the largest scale.
pub open spec fn common_places(a: VoiAttributes) -> nat {
    let w = match a.window {
        Some((c, w)) => max_nat(c.scale as nat, w.scale as nat),
        None => 0,
    };
    max_nat(max_nat(scale_or_zero(a.slope), scale_or_zero(a.intercept)), w)
}

/// `d` times `10^k`, for `k` at least its scale.
pub open spec fn scaled(d: Decimal, k: nat) -> int {
    d.mantissa * pow10((k - d.scale) as nat)
}

/// Rescaled values, all multiplied by the same positive factor `10^k * s`:
/// a grey value `g` (in units of `1/s`) becomes `a * g + s * b`, where `a` and
/// `b` are slope and intercept times `10^k`.
pub open spec fn rescaled(g: Seq<nat>, a: int, b: int, s: int) -> Seq<int> {
    Seq::new(g.len(), |i: int| a * g[i] + s * b)
}

/// The window level of a rescaled value `v`, for centre `c` and width `w`
/// (times `10^k`, with `k10 = 10^k`) and unit factor `s`. In the real values
/// `x`, `c`, `w` this is `t * 2 (w - 1)` (times `10^k * s`), where `t` is the
/// position in the window: 0 for `x <= c - 0.5 - (w - 1) / 2`, 1 for
/// `x > c - 0.5 + (w - 1) / 2` and `(x - (c - 0.5)) / (w - 1) + 0.5` between.
/// A window of width at most one has no inside: the level is 0 or 1.
/// The windowed value `y_min + t (y_max - y_min)` is increasing in the level,
/// so min-max normalization of the windowed values is that of the levels.
pub open spec fn window_level(v: int, s: int, c: int, w: int, k10: int) -> int {
    let d = 2 * v - s * (2 * c - w);
    let u = s * (2 * w - 2 * k10);
    if d <= 0 {
        0
    } else if w > k10 {
        if d > u { u } else { d }
    } else {
        1
    }
}

/// The largest window level: `2 (w - 1)` (times `10^k * s`), or 1 for a
/// window of width at most one.
pub open spec fn top_level(s: int, w: int, k10: int) -> int {
    if w > k10 { s * (2 * w - 2 * k10) } else { 1 }
}

pub open spec fn leveled(v: Seq<int>, s: int, c: int, w: int, k10: int) -> Seq<int> {
    Seq::new(v.len(), |i: int| window_level(v[i], s, c, w, k10))
}

/// The window mapping is monotonic non-decreasing in the input value, and it
/// clamps: inputs at or below the window's lower bound map to the bottom
/// level, inputs above its upper bound to the top level, and every level lies
/// between the two. (Values and bounds are taken on the common integer scale:
/// `x <= lower` is `2 v <= s (2 c - w)`, `x > upper` is
/// `2 v - s (2 c - w) > s (2 w - 2 k10)`; for a window of width at most one
/// the upper bound lies below the lower one, and the lower one decides.)
pub proof fn lemma_window_monotonic(v1: int, v2: int, s: int, c: int, w: int, k10: int)
    requires
        v1 <= v2,
        s > 0,
        w > 0,
        k10 > 0,
    ensures
        window_level(v1, s, c, w, k10) <= window_level(v2, s, c, w, k10),
        0 <= window_level(v1, s, c, w, k10) <= top_level(s, w, k10),
        2 * v1 <= s * (2 * c - w) ==> window_level(v1, s, c, w, k10) == 0,
        2 * v1 > s * (2 * c - w) && 2 * v1 - s * (2 * c - w) > s * (2 * w - 2 * k10)
            ==> window_level(v1, s, c, w, k10) == top_level(s, w, k10),
{
    if w > k10 {
        assert(s * (2 * w - 2 * k10) > 0) by (nonlinear_arith)
            requires s > 0, w > k10;
    }
}

/// The values that normalization receives: the rescaled grey values, or
/// their window levels where a window of positive width is given.
pub open spec fn voi_values(model: ColorModel, bits_allocated: u16, bytes: Seq<u8>, a: VoiAttributes) -> Seq<int> {
    let k = common_places(a);
    let s = scale_of(model) as int;
    let slope = match a.slope { Some(d) => scaled(d, k), None => pow10(k) as int };
    let intercept = match a.intercept { Some(d) => scaled(d, k), None => 0 };
    let v = rescaled(grey_values(model, bits_allocated, bytes), slope, intercept, s);
    match a.window {
        Some((c, w)) => if w.mantissa > 0 { leveled(v, s, scaled(c, k), scaled(w, k), pow10(k) as int) } else { v },
        None => v,
    }
}

pub open spec fn max_int(s: Seq<int>) -> int
    decreases s.len(),
{
    if s.len() == 0 {
        0
    } else {
        let m = max_int(s.drop_last());
        if s.last() > m || s.len() == 1 { s.last() } else { m }
    }
}

pub open spec fn min_int(s: Seq<int>) -> int
    decreases s.len(),
{
    if s.len() == 0 {
        0
    } else {
        let m = min_int(s.drop_last());
        if s.last() < m || s.len() == 1 { s.last() } else { m }
    }
}

/// Min-max scaling to `[0, 255]`, rounding down; all zero when the values are flat.
pub open spec fn min_max_scaled_int(s: Seq<int>) -> Seq<u8> {
    let lo = min_int(s);
    let hi = max_int(s);
    Seq::new(s.len(), |i: int| if hi == lo { 0u8 } else { (255 * (s[i] - lo) / (hi - lo)) as u8 })
}

proof fn lemma_int_bounds(s: Seq<int>)
    ensures
        forall|i: int| 0 <= i < s.len() ==> min_int(s) <= #[trigger] s[i] <= max_int(s),
        s.len() > 0 ==> exists|i: int| 0 <= i < s.len() && s[i] == max_int(s),
        s.len() > 0 ==> exists|i: int| 0 <= i < s.len() && s[i] == min_int(s),
    decreases s.len(),
{
    if s.len() > 0 {
        lemma_int_bounds(s.drop_last());
        assert forall|i: int| 0 <= i < s.len() implies min_int(s) <= #[trigger] s[i] <= max_int(s) by {
            if i < s.len() - 1 {
                assert(s[i] == s.drop_last()[i]);
            }
        }
        if s.len() > 1 && !(s.last() > max_int(s.drop_last())) {
            let j = choose|j: int| 0 <= j < s.drop_last().len() && s.drop_last()[j] == max_int(s.drop_last());
            assert(s[j] == max_int(s));
        } else {
            assert(s[s.len() - 1] == max_int(s));
        }
        if s.len() > 1 && !(s.last() < min_int(s.drop_last())) {
            let j = choose|j: int| 0 <= j < s.drop_last().len() && s.drop_last()[j] == min_int(s.drop_last());
            assert(s[j] == min_int(s));
        } else {
            assert(s[s.len() - 1] == min_int(s));
        }
    }
}

pub open spec fn view_int(v: Seq<i128>) -> Seq<int> {
    Seq::new(v.len(), |i: int| v[i] as int)
}

/// The bound within which every value handed to normalization stays.
pub open spec fn wide_bound() -> int {
    1_000_000_000_000_000_000_000_000_000
}

fn extreme(v: &Vec<i128>, largest: bool) -> (m: i128)
    ensures
        largest ==> m == max_int(view_int(v@)),
        !largest ==> m == min_int(view_int(v@)),
{
    let mut m: i128 = 0;
    let mut i: usize = 0;
    while i < v.len()
        invariant
            i <= v@.len(),
            largest ==> m == max_int(view_int(v@).subrange(0, i as int)),
            !largest ==> m == min_int(view_int(v@).subrange(0, i as int)),
        decreases v@.len() - i,
    {
        assert(view_int(v@).subrange(0, i + 1).drop_last() =~= view_int(v@).subrange(0, i as int));
        if i == 0 || (largest && v[i] > m) || (!largest && v[i] < m) {
            m = v[i];
        }
        i = i + 1;
    }
    assert(view_int(v@).subrange(0, v@.len() as int) =~= view_int(v@));
    m
}

/// Min-max normalization to `[0, 255]` of values on any common scale.
pub fn normalize_wide(v: &Vec<i128>) -> (r: Vec<u8>)
    requires
        forall|i: int| 0 <= i < v@.len() ==> -wide_bound() < #[trigger] v@[i] < wide_bound(),
    ensures
        r@ == min_max_scaled_int(view_int(v@)),
{
    let lo = extreme(v, false);
    let hi = extreme(v, true);
    proof {
        lemma_int_bounds(view_int(v@));
        if v@.len() > 0 {
            let j = choose|j: int| 0 <= j < view_int(v@).len() && view_int(v@)[j] == max_int(view_int(v@));
            let j2 = choose|j: int| 0 <= j < view_int(v@).len() && view_int(v@)[j] == min_int(view_int(v@));
            assert(view_int(v@)[j] == v@[j] as int);
            assert(view_int(v@)[j2] == v@[j2] as int);
        }
    }
    let mut r: Vec<u8> = Vec::new();
    let mut i: usize = 0;
    while i < v.len()
        invariant
            i <= v@.len(),
            lo == min_int(view_int(v@)),
            hi == max_int(view_int(v@)),
            v@.len() > 0 ==> -wide_bound() < lo && hi < wide_bound(),
            forall|k: int| 0 <= k < v@.len() ==> lo <= #[trigger] view_int(v@)[k] <= hi,
            r@ == min_max_scaled_int(view_int(v@)).subrange(0, i as int),
        decreases v@.len() - i,
    {
        assert(view_int(v@)[i as int] == v@[i as int] as int);
        let p: u8 = if hi == lo {
            0
        } else {
            let x = v[i];
            let d: i128 = x - lo;
            let range: i128 = hi - lo;
            proof {
                assert(0 <= d <= range);
                assert(255 * d <= 255 * range) by (nonlinear_arith)
                    requires 0 <= d <= range;
            }
            let num: i128 = 255 * d;
            let q: i128 = num / range;
            proof {
                assert(0 <= q <= 255) by (nonlinear_arith)
                    requires q == num / range, 0 <= num <= 255 * range, range > 0;
            }
            q as u8
        };
        r.push(p);
        i = i + 1;
        assert(r@ =~= min_max_scaled_int(view_int(v@)).subrange(0, i as int));
    }
    assert(r@ =~= min_max_scaled_int(view_int(v@)));
    r
}

fn pow10_exec(k: u32) -> (r: i128)
    requires
        k <= 18,
    ensures
        r == pow10(k as nat),
        1 <= r <= 1_000_000_000_000_000_000,
{
    let mut r: i128 = 1;
    let mut i: u32 = 0;
    while i < k
        invariant
            i <= k <= 18,
            r == pow10(i as nat),
        decreases k - i,
    {
        proof {
            lemma_pow10_mono(i as nat, 17);
            lemma_pow10_mono(17, 17);
            reveal_with_fuel(pow10, 19);
        }
        r = r * 10;
        i = i + 1;
    }
    proof {
        lemma_pow10_mono(k as nat, 18);
        reveal_with_fuel(pow10, 19);
    }
    r
}

fn scale_decimal(d: Decimal, k: u32) -> (r: i128)
    requires
        d.wf(),
        d.scale <= k <= 9,
    ensures
        r == scaled(d, k as nat),
        -1_000_000_000_000_000_000 < r < 1_000_000_000_000_000_000,
{
    let p = pow10_exec(k - d.scale);
    proof {
        lemma_pow10_mono((k - d.scale) as nat, 9);
        lemma_pow10_nine();
        assert(-1_000_000_000_000_000_000 < (d.mantissa as int) * p < 1_000_000_000_000_000_000) by (nonlinear_arith)
            requires -1_000_000_000 < d.mantissa < 1_000_000_000, 1 <= p <= 1_000_000_000;
    }
    (d.mantissa as i128) * p
}

fn places(a: &VoiAttributes) -> (k: u32)
    requires
        a.wf(),
    ensures
        k == common_places(*a),
        k <= 9,
{
    let s1: u32 = match a.slope { Some(d) => d.scale, None => 0 };
    let s2: u32 = match a.intercept { Some(d) => d.scale, None => 0 };
    let w: u32 = match a.window {
        Some((c, w)) => if c.scale >= w.scale { c.scale } else { w.scale },
        None => 0,
    };
    let m = if s1 >= s2 { s1 } else { s2 };
    if m >= w { m } else { w }
}

/// Renders pixel data through every stage: decode, reduce colour, correct
/// polarity, rescale, window (where a window of positive width is given),
/// normalize and pack, all in exact arithmetic.
pub fn render_voi(
    model: ColorModel,
    bits_allocated: u16,
    bytes: &Vec<u8>,
    width: u32,
    height: u32,
    attrs: VoiAttributes,
) -> (r: Result<Raster, RenderError>)
    requires
        attrs.wf(),
    ensures
        ({
            let pixels = min_max_scaled_int(voi_values(model, bits_allocated, bytes@, attrs));
            &&& pixels.len() == width * height ==> (r matches Ok(img) && img.width == width
                && img.height == height && img.pixels@ == pixels)
            &&& pixels.len() != width * height ==> r == Err::<Raster, RenderError>(RenderError::Dimensions)
        }),
{
    let s = decode_samples(model, bits_allocated, bytes);
    let scale_in = s.scale;
    let g = if model == ColorModel::Inverted {
        let r = invert(&s.values);
        proof {
            assert forall|i: int| 0 <= i < view_nat(s.values@).len() implies view_nat(s.values@)[i] <= sample_bound() by {
                assert(view_nat(s.values@)[i] == s.values@[i] as nat);
            }
            lemma_max_bounded(view_nat(s.values@), sample_bound());
        }
        r
    } else {
        s.values
    };
    let ghost gv = grey_values(model, bits_allocated, bytes@);
    assert(view_nat(g@) == gv);
    let k = places(&attrs);
    let k10 = pow10_exec(k);
    proof {
        lemma_pow10_mono(k as nat, 9);
        lemma_pow10_nine();
    }
    let a: i128 = match attrs.slope { Some(d) => scale_decimal(d, k), None => k10 };
    let b: i128 = match attrs.intercept { Some(d) => scale_decimal(d, k), None => 0 };
    let sc: i128 = scale_in as i128;
    assert(sc == scale_of(model) as int);
    let mut v: Vec<i128> = Vec::new();
    let mut i: usize = 0;
    while i < g.len()
        invariant
            i <= g@.len(),
            view_nat(g@) == gv,
            forall|j: int| 0 <= j < g@.len() ==> g@[j] <= sample_bound(),
            -1_000_000_000_000_000_000 < a < 1_000_000_000_000_000_000,
            -1_000_000_000_000_000_000 < b < 1_000_000_000_000_000_000,
            1 <= sc <= 1000,
            v@.len() == i,
            forall|j: int| 0 <= j < i ==> -200_000_000_000_000_000_000_000_000 < #[trigger] v@[j] < 200_000_000_000_000_000_000_000_000,
            view_int(v@) == rescaled(gv, a as int, b as int, sc as int).subrange(0, i as int),
        decreases g@.len() - i,
    {
        let x = g[i];
        assert(view_nat(g@)[i as int] == x as nat);
        proof {
            assert(-100_000_000_000_000_000_000_000_000 < (a as int) * (x as int) < 100_000_000_000_000_000_000_000_000) by (nonlinear_arith)
                requires -1_000_000_000_000_000_000 < a < 1_000_000_000_000_000_000, 0 <= x <= 65_535_000;
            assert(-1_000_000_000_000_000_000_000 <= (sc as int) * (b as int) <= 1_000_000_000_000_000_000_000) by (nonlinear_arith)
                requires -1_000_000_000_000_000_000 < b < 1_000_000_000_000_000_000, 1 <= sc <= 1000;
        }
        let y: i128 = a * (x as i128) + sc * b;
        v.push(y);
        i = i + 1;
        assert(view_int(v@) =~= rescaled(gv, a as int, b as int, sc as int).subrange(0, i as int));
    }
    assert(view_int(v@) =~= rescaled(gv, a as int, b as int, sc as int));
    let values: Vec<i128> = match attrs.window {
        Some((cd, wd)) => if wd.mantissa > 0 {
            let c = scale_decimal(cd, k);
            let w = scale_decimal(wd, k);
            let shift: i128 = sc * (2 * c - w);
            let top: i128 = sc * (2 * w - 2 * k10);
            proof {
                assert(-3_000_000_000_000_000_000_000 < sc * (2 * c - w) < 3_000_000_000_000_000_000_000) by (nonlinear_arith)
                    requires -1_000_000_000_000_000_000 < c < 1_000_000_000_000_000_000,
                        -1_000_000_000_000_000_000 < w < 1_000_000_000_000_000_000, 1 <= sc <= 1000;
                assert(-4_000_000_000_000_000_000_000 < sc * (2 * w - 2 * k10) < 4_000_000_000_000_000_000_000) by (nonlinear_arith)
                    requires 1 <= k10 <= 1_000_000_000_000_000_000,
                        -1_000_000_000_000_000_000 < w < 1_000_000_000_000_000_000, 1 <= sc <= 1000;
            }
            let mut out: Vec<i128> = Vec::new();
            let mut j: usize = 0;
            while j < v.len()
                invariant
                    j <= v@.len(),
                    forall|m: int| 0 <= m < v@.len() ==> -200_000_000_000_000_000_000_000_000 < #[trigger] v@[m] < 200_000_000_000_000_000_000_000_000,
                    shift == sc * (2 * c - w),
                    top == sc * (2 * w - 2 * k10),
                    -3_000_000_000_000_000_000_000 < shift < 3_000_000_000_000_000_000_000,
                    -4_000_000_000_000_000_000_000 < top < 4_000_000_000_000_000_000_000,
                    out@.len() == j,
                    forall|m: int| 0 <= m < j ==> -wide_bound() < #[trigger] out@[m] < wide_bound(),
                    view_int(out@) == leveled(view_int(v@), sc as int, c as int, w as int, k10 as int).subrange(0, j as int),
                decreases v@.len() - j,
            {
                let x = v[j];
                assert(view_int(v@)[j as int] == x as int);
                let d: i128 = 2 * x - shift;
                let level: i128 = if d <= 0 {
                    0
                } else if w > k10 {
                    if d > top { top } else { d }
                } else {
                    1
                };
                out.push(level);
                j = j + 1;
                assert(view_int(out@) =~= leveled(view_int(v@), sc as int, c as int, w as int, k10 as int).subrange(0, j as int));
            }
            assert(view_int(out@) =~= leveled(view_int(v@), sc as int, c as int, w as int, k10 as int));
            out
        } else {
            v
        },
        None => v,
    };
    assert(view_int(values@) == voi_values(model, bits_allocated, bytes@, attrs));
    assert forall|m: int| 0 <= m < values@.len() implies -wide_bound() < #[trigger] values@[m] < wide_bound() by {}
    let pixels = normalize_wide(&values);
    pack_raster(width, height, pixels)
}

} // verus!
