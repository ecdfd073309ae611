//! The integer stages of the pixel-rendering pipeline: photometric
//! classification, sample decoding, colour reduction, polarity correction,
//! min-max normalization to 8 bits and packing into a raster.
//!
//! Sample values are exact integers. Colour reduction keeps luminance in
//! thousandths (`299 R + 587 G + 114 B`), so no precision is lost; min-max
//! normalization is invariant under that scale.
use vstd::prelude::*;
use crate::metadata::{trimmed, trim_text};
use crate::text::{chars_of, push_all, string_of};

verus! {

/// How the samples of an image map to grey levels.
#[derive(Debug, Clone, Copy, PartialEq, Eq, Structural)]
pub enum ColorModel {
    /// Three samples per pixel, reduced to luminance.
    Rgb,
    /// One sample per pixel, higher is darker.
    Inverted,
    /// One sample per pixel, higher is brighter.
    Monochrome,
}

pub open spec fn color_model_of(pi: Option<Seq<char>>) -> ColorModel {
    match pi {
        Some(s) => if s == "RGB"@ || s == "YBR_FULL"@ || s == "YBR_FULL_422"@ {
            ColorModel::Rgb
        } else if s == "MONOCHROME1"@ {
            ColorModel::Inverted
        } else {
            ColorModel::Monochrome
        },
        None => ColorModel::Monochrome,
    }
}

fn same_text(a: &Vec<char>, b: &str) -> (r: bool)
    ensures
        r == (a@ == b@),
{
    let bc = chars_of(b);
    if a.len() != bc.len() {
        return false;
    }
    let mut i: usize = 0;
    while i < a.len()
        invariant
            a@.len() == bc@.len(),
            bc@ == b@,
            i <= a@.len(),
            forall|k: int| 0 <= k < i ==> a@[k] == bc@[k],
        decreases a@.len() - i,
    {
        if a[i] != bc[i] {
            assert(a@[i as int] != b@[i as int]);
            return false;
        }
        i = i + 1;
    }
    assert(a@ =~= bc@);
    true
}

/// Classifies a photometric interpretation. The RGB family reduces to
/// luminance, MONOCHROME1 is inverted, and anything else (absent, MONOCHROME2,
/// or an unknown value) is taken as plain monochrome.
pub fn color_model(pi: Option<&str>) -> (r: ColorModel)
    ensures
        r == color_model_of(match pi { Some(s) => Some(s@), None => None }),
{
    match pi {
        None => ColorModel::Monochrome,
        Some(s) => {
            let c = chars_of(s);
            if same_text(&c, "RGB") || same_text(&c, "YBR_FULL") || same_text(&c, "YBR_FULL_422") {
                ColorModel::Rgb
            } else if same_text(&c, "MONOCHROME1") {
                ColorModel::Inverted
            } else {
                ColorModel::Monochrome
            }
        },
    }
}

/// The stored samples: little-endian pairs of bytes at 16 bits allocated (a
/// trailing odd byte is ignored), the bytes themselves otherwise.
pub open spec fn raw_samples(bits_allocated: u16, bytes: Seq<u8>) -> Seq<nat> {
    if bits_allocated == 16 {
        Seq::new(bytes.len() / 2, |i: int| (bytes[2 * i] + 256 * bytes[2 * i + 1]) as nat)
    } else {
        Seq::new(bytes.len(), |i: int| bytes[i] as nat)
    }
}

/// Luminance of one pixel, in thousandths.
pub open spec fn luminance(r: nat, g: nat, b: nat) -> nat {
    299 * r + 587 * g + 114 * b
}

/// One grey value per pixel: the luminance of each complete sample triple
/// for RGB, the samples themselves otherwise.
pub open spec fn reduced(model: ColorModel, s: Seq<nat>) -> Seq<nat> {
    if model == ColorModel::Rgb {
        Seq::new(s.len() / 3, |i: int| luminance(s[3 * i], s[3 * i + 1], s[3 * i + 2]))
    } else {
        s
    }
}

/// The units of a reduced value: thousandths for RGB, whole samples otherwise.
pub open spec fn scale_of(model: ColorModel) -> nat {
    if model == ColorModel::Rgb { 1000 } else { 1 }
}

pub open spec fn max_of(s: Seq<nat>) -> nat
    decreases s.len(),
{
    if s.len() == 0 {
        0
    } else {
        let m = max_of(s.drop_last());
        if s.last() > m || s.len() == 1 { s.last() } else { m }
    }
}

pub open spec fn min_of(s: Seq<nat>) -> nat
    decreases s.len(),
{
    if s.len() == 0 {
        0
    } else {
        let m = min_of(s.drop_last());
        if s.last() < m || s.len() == 1 { s.last() } else { m }
    }
}

/// Polarity correction: every value `v` becomes `max - v`.
pub open spec fn inverted(s: Seq<nat>) -> Seq<nat> {
    Seq::new(s.len(), |i: int| (max_of(s) - s[i]) as nat)
}

/// The grey values after colour reduction and polarity correction.
pub open spec fn grey_values(model: ColorModel, bits_allocated: u16, bytes: Seq<u8>) -> Seq<nat> {
    let r = reduced(model, raw_samples(bits_allocated, bytes));
    if model == ColorModel::Inverted { inverted(r) } else { r }
}

/// Min-max scaling to `[0, 255]`, rounding down; all zero when the values are flat.
pub open spec fn min_max_scaled(s: Seq<nat>) -> Seq<u8> {
    let lo = min_of(s);
    let hi = max_of(s);
    Seq::new(s.len(), |i: int| if hi == lo { 0u8 } else { (255 * (s[i] - lo) / (hi - lo)) as u8 })
}

pub open spec fn view_nat(v: Seq<u32>) -> Seq<nat> {
    Seq::new(v.len(), |i: int| v[i] as nat)
}

proof fn lemma_view_nat_push(v: Seq<u32>, x: u32)
    ensures
        view_nat(v.push(x)) == view_nat(v).push(x as nat),
{
    assert(view_nat(v.push(x)) =~= view_nat(v).push(x as nat));
}

proof fn lemma_bounds(s: Seq<nat>)
    ensures
        forall|i: int| 0 <= i < s.len() ==> min_of(s) <= #[trigger] s[i] <= max_of(s),
        s.len() > 0 ==> exists|i: int| 0 <= i < s.len() && s[i] == max_of(s),
    decreases s.len(),
{
    if s.len() > 0 {
        lemma_bounds(s.drop_last());
        assert forall|i: int| 0 <= i < s.len() implies min_of(s) <= #[trigger] s[i] <= max_of(s) by {
            if i < s.len() - 1 {
                assert(s[i] == s.drop_last()[i]);
            }
        }
        if s.len() > 1 && !(s.last() > max_of(s.drop_last())) {
            let j = choose|j: int| 0 <= j < s.drop_last().len() && s.drop_last()[j] == max_of(s.drop_last());
            assert(s[j] == max_of(s));
        } else {
            assert(s[s.len() - 1] == max_of(s));
        }
    }
}

proof fn lemma_flat(s: Seq<nat>)
    requires
        s.len() > 0,
        forall|i: int| 0 <= i < s.len() ==> #[trigger] s[i] == s[0],
    ensures
        min_of(s) == s[0],
        max_of(s) == s[0],
    decreases s.len(),
{
    if s.len() > 1 {
        assert forall|i: int| 0 <= i < s.drop_last().len() implies #[trigger] s.drop_last()[i] == s.drop_last()[0] by {
            assert(s.drop_last()[i] == s[i]);
        }
        lemma_flat(s.drop_last());
    }
}

/// The largest grey value a decoded buffer can hold: the luminance, in
/// thousandths, of a white 16-bit pixel.
pub open spec fn sample_bound() -> nat {
    65_535_000
}

/// The largest value of a buffer is bounded by any bound of its values.
pub proof fn lemma_max_bounded(s: Seq<nat>, b: nat)
    requires
        forall|i: int| 0 <= i < s.len() ==> s[i] <= b,
    ensures
        max_of(s) <= b,
{
    lemma_bounds(s);
}

/// Decoded samples: grey values in units of `1 / scale`.
#[derive(Debug, Clone)]
pub struct Samples {
    pub values: Vec<u32>,
    pub scale: u32,
}

/// Reads the stored samples and reduces colour: luminance in thousandths for
/// RGB, the samples unchanged otherwise.
pub fn decode_samples(model: ColorModel, bits_allocated: u16, bytes: &Vec<u8>) -> (r: Samples)
    ensures
        view_nat(r.values@) == reduced(model, raw_samples(bits_allocated, bytes@)),
        r.scale == scale_of(model),
        forall|i: int| 0 <= i < r.values@.len() ==> r.values@[i] <= sample_bound(),
{
    let mut raw: Vec<u32> = Vec::new();
    if bits_allocated == 16 {
        let len = bytes.len();
        let n = len / 2;
        let mut i: usize = 0;
        while i < n
            invariant
                len == bytes@.len(),
                n == bytes@.len() / 2,
                bits_allocated == 16,
                i <= n,
                view_nat(raw@) == raw_samples(bits_allocated, bytes@).subrange(0, i as int),
            decreases n - i,
        {
            assert(2 * i + 1 < bytes@.len()) by (nonlinear_arith)
                requires i < n, n == bytes@.len() / 2;
            assert(2 * i + 1 < len);
            let v: u32 = bytes[2 * i] as u32 + 256 * (bytes[2 * i + 1] as u32);
            assert(raw_samples(bits_allocated, bytes@)[i as int] == v as nat);
            proof { lemma_view_nat_push(raw@, v); }
            raw.push(v);
            i = i + 1;
            assert(view_nat(raw@) =~= raw_samples(bits_allocated, bytes@).subrange(0, i as int));
        }
    } else {
        let mut i: usize = 0;
        while i < bytes.len()
            invariant
                i <= bytes@.len(),
                bits_allocated != 16,
                view_nat(raw@) == raw_samples(bits_allocated, bytes@).subrange(0, i as int),
            decreases bytes@.len() - i,
        {
            proof { lemma_view_nat_push(raw@, bytes@[i as int] as u32); }
            assert(raw_samples(bits_allocated, bytes@)[i as int] == bytes@[i as int] as nat);
            raw.push(bytes[i] as u32);
            i = i + 1;
            assert(view_nat(raw@) =~= raw_samples(bits_allocated, bytes@).subrange(0, i as int));
        }
    }
    let ghost rs = raw_samples(bits_allocated, bytes@);
    assert(view_nat(raw@) =~= rs);
    assert forall|i: int| 0 <= i < raw@.len() implies raw@[i] <= 65535 by {
        assert(view_nat(raw@)[i] == raw@[i] as nat);
    }
    if model == ColorModel::Rgb {
        let rlen = raw.len();
        let n = rlen / 3;
        let mut out: Vec<u32> = Vec::new();
        let mut i: usize = 0;
        while i < n
            invariant
                rlen == raw@.len(),
                n == raw@.len() / 3,
                model == ColorModel::Rgb,
                i <= n,
                view_nat(raw@) == rs,
                forall|k: int| 0 <= k < raw@.len() ==> raw@[k] <= 65535,
                forall|k: int| 0 <= k < out@.len() ==> out@[k] <= sample_bound(),
                view_nat(out@) == reduced(model, rs).subrange(0, i as int),
            decreases n - i,
        {
            assert(view_nat(raw@)[3 * i as int] == raw@[3 * i as int] as nat);
            assert(view_nat(raw@)[3 * i + 1] == raw@[3 * i + 1] as nat);
            assert(view_nat(raw@)[3 * i + 2] == raw@[3 * i + 2] as nat);
            assert(3 * i + 2 < raw@.len()) by (nonlinear_arith)
                requires i < n, n == raw@.len() / 3;
            assert(3 * i + 2 < rlen);
            let v: u32 = 299 * raw[3 * i] + 587 * raw[3 * i + 1] + 114 * raw[3 * i + 2];
            assert(reduced(model, rs)[i as int] == v as nat);
            proof { lemma_view_nat_push(out@, v); }
            out.push(v);
            i = i + 1;
            assert(view_nat(out@) =~= reduced(model, rs).subrange(0, i as int));
        }
        assert(view_nat(out@) =~= reduced(model, rs));
        Samples { values: out, scale: 1000 }
    } else {
        Samples { values: raw, scale: 1 }
    }
}

fn max_value(v: &Vec<u32>) -> (m: u32)
    ensures
        m == max_of(view_nat(v@)),
{
    let mut m: u32 = 0;
    let mut i: usize = 0;
    while i < v.len()
        invariant
            i <= v@.len(),
            m == max_of(view_nat(v@).subrange(0, i as int)),
        decreases v@.len() - i,
    {
        assert(view_nat(v@).subrange(0, i + 1).drop_last() =~= view_nat(v@).subrange(0, i as int));
        if v[i] > m || i == 0 {
            m = v[i];
        }
        i = i + 1;
    }
    assert(view_nat(v@).subrange(0, v@.len() as int) =~= view_nat(v@));
    m
}

fn min_value(v: &Vec<u32>) -> (m: u32)
    ensures
        m == min_of(view_nat(v@)),
{
    let mut m: u32 = 0;
    let mut i: usize = 0;
    while i < v.len()
        invariant
            i <= v@.len(),
            m == min_of(view_nat(v@).subrange(0, i as int)),
        decreases v@.len() - i,
    {
        assert(view_nat(v@).subrange(0, i + 1).drop_last() =~= view_nat(v@).subrange(0, i as int));
        if v[i] < m || i == 0 {
            m = v[i];
        }
        i = i + 1;
    }
    assert(view_nat(v@).subrange(0, v@.len() as int) =~= view_nat(v@));
    m
}

/// Polarity correction: replaces every value `v` with `max - v`.
pub fn invert(v: &Vec<u32>) -> (r: Vec<u32>)
    ensures
        view_nat(r@) == inverted(view_nat(v@)),
        forall|i: int| 0 <= i < r@.len() ==> r@[i] <= max_of(view_nat(v@)),
{
    let m = max_value(v);
    proof { lemma_bounds(view_nat(v@)); }
    let mut r: Vec<u32> = Vec::new();
    let mut i: usize = 0;
    while i < v.len()
        invariant
            i <= v@.len(),
            m == max_of(view_nat(v@)),
            forall|k: int| 0 <= k < v@.len() ==> view_nat(v@)[k] <= max_of(view_nat(v@)),
            view_nat(r@) == inverted(view_nat(v@)).subrange(0, i as int),
            forall|k: int| 0 <= k < r@.len() ==> r@[k] <= m,
        decreases v@.len() - i,
    {
        assert(view_nat(v@)[i as int] == v@[i as int] as nat);
        proof { lemma_view_nat_push(r@, (m - v@[i as int]) as u32); }
        r.push(m - v[i]);
        i = i + 1;
        assert(view_nat(r@) =~= inverted(view_nat(v@)).subrange(0, i as int));
    }
    assert(view_nat(r@) =~= inverted(view_nat(v@)));
    r
}

/// Min-max normalization to `[0, 255]`, rounding down. A flat buffer (all
/// values equal) gives all zeros rather than a division by zero.
pub fn normalize(v: &Vec<u32>) -> (r: Vec<u8>)
    ensures
        r@ == min_max_scaled(view_nat(v@)),
        v@.len() > 0 && (forall|i: int| 0 <= i < v@.len() ==> #[trigger] v@[i] == v@[0])
            ==> forall|i: int| 0 <= i < r@.len() ==> r@[i] == 0,
{
    let lo = min_value(v);
    let hi = max_value(v);
    proof { lemma_bounds(view_nat(v@)); }
    let mut r: Vec<u8> = Vec::new();
    let mut i: usize = 0;
    while i < v.len()
        invariant
            i <= v@.len(),
            lo == min_of(view_nat(v@)),
            hi == max_of(view_nat(v@)),
            forall|k: int| 0 <= k < v@.len() ==> lo <= #[trigger] view_nat(v@)[k] <= hi,
            r@ == min_max_scaled(view_nat(v@)).subrange(0, i as int),
        decreases v@.len() - i,
    {
        assert(view_nat(v@)[i as int] == v@[i as int] as nat);
        let p: u8 = if hi == lo {
            0
        } else {
            let x = v[i];
            let d: u64 = (x - lo) as u64;
            let num: u64 = 255 * d;
            let q: u64 = num / ((hi - lo) as u64);
            proof {
                assert(d <= (hi - lo) as u64);
                assert(255 * d <= 255 * ((hi - lo) as u64)) by (nonlinear_arith)
                    requires d <= (hi - lo) as u64;
                assert(q <= 255) by (nonlinear_arith)
                    requires q == num / ((hi - lo) as u64), num <= 255 * ((hi - lo) as u64), hi > lo;
            }
            q as u8
        };
        r.push(p);
        i = i + 1;
        assert(r@ =~= min_max_scaled(view_nat(v@)).subrange(0, i as int));
    }
    assert(r@ =~= min_max_scaled(view_nat(v@)));
    proof {
        if v@.len() > 0 && (forall|i: int| 0 <= i < v@.len() ==> #[trigger] v@[i] == v@[0]) {
            assert forall|i: int| 0 <= i < v@.len() implies #[trigger] view_nat(v@)[i] == view_nat(v@)[0] by {
                assert(v@[i] == v@[0]);
            }
            lemma_flat(view_nat(v@));
        }
    }
    r
}

/// A row-major 8-bit grayscale image.
#[derive(Debug, Clone)]
pub struct Raster {
    pub width: u32,
    pub height: u32,
    pub pixels: Vec<u8>,
}

/// Why an item could not be rendered.
#[derive(Debug, Clone, PartialEq, Eq)]
pub enum RenderError {
    /// The item holds no pixel data at all.
    MissingPixelData,
    /// The format layer could not decode the pixel data.
    Decode(String),
    /// The pixel buffer does not fill the declared width and height exactly.
    Dimensions,
}

/// Packs a buffer into a raster of the declared size; fails unless the
/// buffer holds exactly `width * height` pixels.
pub fn pack_raster(width: u32, height: u32, pixels: Vec<u8>) -> (r: Result<Raster, RenderError>)
    ensures
        pixels@.len() == width * height ==> (r matches Ok(img) && img.width == width && img.height == height
            && img.pixels@ == pixels@),
        pixels@.len() != width * height ==> r == Err::<Raster, RenderError>(RenderError::Dimensions),
{
    proof {
        assert((width as u64) * (height as u64) <= 0xffff_ffffu64 * 0xffff_ffffu64) by (nonlinear_arith)
            requires width <= 0xffff_ffffu32, height <= 0xffff_ffffu32;
    }
    let expected: u64 = (width as u64) * (height as u64);
    if pixels.len() as u64 == expected {
        Ok(Raster { width, height, pixels })
    } else {
        Err(RenderError::Dimensions)
    }
}

/// Renders pixel data that carries no rescale and no window: decode, reduce
/// colour, correct polarity, normalize and pack. Without those attributes the
/// rescale stage is the identity and windowing is not applied.
pub fn render_plain(
    model: ColorModel,
    bits_allocated: u16,
    bytes: &Vec<u8>,
    width: u32,
    height: u32,
) -> (r: Result<Raster, RenderError>)
    ensures
        ({
            let pixels = min_max_scaled(grey_values(model, bits_allocated, bytes@));
            &&& pixels.len() == width * height ==> (r matches Ok(img) && img.width == width
                && img.height == height && img.pixels@ == pixels)
            &&& pixels.len() != width * height ==> r == Err::<Raster, RenderError>(RenderError::Dimensions)
        }),
        model == ColorModel::Monochrome && bits_allocated == 16 ==> (r matches Ok(img) ==>
            img.pixels@ == min_max_scaled(Seq::new(bytes@.len() / 2, |i: int| (bytes@[2 * i] + 256 * bytes@[2 * i + 1]) as nat))),
{
    let s = decode_samples(model, bits_allocated, bytes);
    let values = if model == ColorModel::Inverted { invert(&s.values) } else { s.values };
    let pixels = normalize(&values);
    proof {
        let rs = raw_samples(bits_allocated, bytes@);
        if model == ColorModel::Monochrome && bits_allocated == 16 {
            assert(rs =~= Seq::new(bytes@.len() / 2, |i: int| (bytes@[2 * i] + 256 * bytes@[2 * i + 1]) as nat));
        }
    }
    pack_raster(width, height, pixels)
}

/// The text of a decode failure, naming the transfer syntax for diagnosis.
pub open spec fn decode_failure_text(transfer_syntax: Seq<char>, err: Seq<char>) -> Seq<char> {
    "Could not decode pixel data (Transfer Syntax: "@ + transfer_syntax + "): "@ + err
}

pub open spec fn render_error_text(e: RenderError) -> Seq<char> {
    match e {
        RenderError::MissingPixelData => "Missing PixelData - file may not contain image data"@,
        RenderError::Decode(m) => m@,
        RenderError::Dimensions => "Failed to create image from normalized pixels"@,
    }
}

/// A decode failure that names the transfer syntax.
pub fn decode_failure(transfer_syntax: &str, err: &str) -> (r: RenderError)
    ensures
        r matches RenderError::Decode(m) && m@ == decode_failure_text(transfer_syntax@, err@),
{
    let mut m = chars_of("Could not decode pixel data (Transfer Syntax: ");
    push_all(&mut m, &chars_of(transfer_syntax));
    push_all(&mut m, &chars_of("): "));
    push_all(&mut m, &chars_of(err));
    RenderError::Decode(string_of(&m))
}

impl RenderError {
    /// The user-facing text of the error.
    pub fn message(&self) -> (r: String)
        ensures
            r@ == render_error_text(*self),
    {
        match self {
            RenderError::MissingPixelData => string_of(&chars_of("Missing PixelData - file may not contain image data")),
            RenderError::Decode(m) => m.clone(),
            RenderError::Dimensions => string_of(&chars_of("Failed to create image from normalized pixels")),
        }
    }
}

/// The part of `s` before its first delimiter (comma or backslash).
pub open spec fn first_segment_of(s: Seq<char>) -> Seq<char>
    decreases s.len(),
{
    if s.len() == 0 {
        s
    } else if s[0] == ',' || s[0] == '\\' {
        Seq::empty()
    } else {
        seq![s[0]] + first_segment_of(s.subrange(1, s.len() as int))
    }
}

proof fn lemma_first_segment(s: Seq<char>, k: int)
    requires
        0 <= k <= s.len(),
        forall|j: int| 0 <= j < k ==> s[j] != ',' && s[j] != '\\',
        k == s.len() || s[k] == ',' || s[k] == '\\',
    ensures
        first_segment_of(s) == s.subrange(0, k),
    decreases s.len(),
{
    if s.len() > 0 && k > 0 {
        let t = s.subrange(1, s.len() as int);
        assert forall|j: int| 0 <= j < k - 1 implies t[j] != ',' && t[j] != '\\' by {
            assert(t[j] == s[j + 1]);
        }
        lemma_first_segment(t, k - 1);
        assert(seq![s[0]] + t.subrange(0, k - 1) =~= s.subrange(0, k));
    } else {
        assert(s.subrange(0, 0) =~= Seq::<char>::empty());
    }
}

/// The text of a window attribute to read as a number: its first
/// comma- or backslash-delimited segment, trimmed. A multi-valued window
/// centre or width uses its first value.
pub fn window_value_text(s: &str) -> (r: String)
    ensures
        r@ == trimmed(first_segment_of(s@)),
{
    let c = chars_of(s);
    let mut k: usize = 0;
    while k < c.len() && c[k] != ',' && c[k] != '\\'
        invariant
            k <= c@.len(),
            forall|j: int| 0 <= j < k ==> c@[j] != ',' && c@[j] != '\\',
        decreases c@.len() - k,
    {
        k = k + 1;
    }
    proof { lemma_first_segment(c@, k as int); }
    let mut seg: Vec<char> = Vec::new();
    let mut i: usize = 0;
    while i < k
        invariant
            k <= c@.len(),
            i <= k,
            seg@ == c@.subrange(0, i as int),
        decreases k - i,
    {
        seg.push(c[i]);
        i = i + 1;
        assert(seg@ =~= c@.subrange(0, i as int));
    }
    string_of(&trim_text(&seg))
}

pub open spec fn or_unknown(o: Option<String>) -> Seq<char> {
    match o {
        Some(s) => s@,
        None => "Unknown"@,
    }
}

/// The failure text of a file without pixel data, naming its modality and
/// SOP class (`Unknown` where absent).
pub fn missing_pixel_data_text(modality: &Option<String>, sop_class: &Option<String>) -> (r: String)
    ensures
        r@ == "no pixel data (Modality="@ + or_unknown(*modality) + ", SOPClass="@ + or_unknown(*sop_class) + ")"@,
{
    let mut m = chars_of("no pixel data (Modality=");
    match modality {
        Some(x) => push_all(&mut m, &chars_of(x.as_str())),
        None => push_all(&mut m, &chars_of("Unknown")),
    }
    push_all(&mut m, &chars_of(", SOPClass="));
    match sop_class {
        Some(x) => push_all(&mut m, &chars_of(x.as_str())),
        None => push_all(&mut m, &chars_of("Unknown")),
    }
    push_all(&mut m, &chars_of(")"));
    string_of(&m)
}

} // verus!
