//! Pixel layout of the meter window and the rate bar, scaled from a
//! 96-dpi design to the window's dpi.

use vstd::prelude::*;
use crate::rate::{PollRate, lemma_reaches_monotone};

verus! {

/// Client width at 96 dpi.
pub const WIDTH: i32 = 640;

/// Client height at 96 dpi.
pub const HEIGHT: i32 = 400;

/// Bar colour (0x00BBGGRR) at 900 Hz and above.
pub const BAR_COLOR_HIGH: u32 = 0x00AA00;

/// Bar colour from 400 Hz up to 900 Hz.
pub const BAR_COLOR_MID: u32 = 0x00AAFF;

/// Bar colour below 400 Hz.
pub const BAR_COLOR_LOW: u32 = 0xFF4444;

/// Integer division that rounds toward zero, as Rust's `/` does.
pub open spec fn div_toward_zero(a: int, b: int) -> int {
    if a >= 0 {
        a / b
    } else {
        -((-a) / b)
    }
}

/// A length of the 96-dpi design at `dpi`.
pub open spec fn scaled(v: int, dpi: int) -> int {
    div_toward_zero(v * dpi, 96)
}

/// Scales a length of the 96-dpi design to `dpi`.
pub fn scale_px(v: i32, dpi: i32) -> (r: i32)
    requires
        i32::MIN <= v * dpi <= i32::MAX,
    ensures
        r == scaled(v as int, dpi as int),
{
    v * dpi / 96
}

/// Height of a font designed `base` pixels high at 96 dpi, negative to ask
/// for the character height rather than the cell height.
pub fn font_height(base: i32, dpi: i32) -> (h: i32)
    requires
        i32::MIN <= base * dpi <= i32::MAX,
    ensures
        h == -scaled(base as int, dpi as int),
{
    -scale_px(base, dpi)
}

/// Font heights never grow with the dpi: being negative, they only get
/// larger in size.
pub proof fn lemma_font_height_monotone(base: int, dpi1: int, dpi2: int)
    requires
        0 <= base,
        0 < dpi1 <= dpi2,
    ensures
        -scaled(base, dpi2) <= -scaled(base, dpi1),
{
    assert(base * dpi1 <= base * dpi2) by (nonlinear_arith)
        requires
            0 <= base,
            0 < dpi1 <= dpi2,
    ;
    assert(0 <= base * dpi1) by (nonlinear_arith)
        requires
            0 <= base,
            0 < dpi1,
    ;
    assert((base * dpi1) / 96 <= (base * dpi2) / 96) by (nonlinear_arith)
        requires
            0 <= base * dpi1 <= base * dpi2,
    ;
}

/// Design height, at 96 dpi, of the title font.
pub const TITLE_FONT_PX: i32 = 28;
/// Design height, at 96 dpi, of the large read-out font.
pub const BIG_FONT_PX: i32 = 56;
/// Design height, at 96 dpi, of the statistics font.
pub const NORMAL_FONT_PX: i32 = 18;

/// The three font heights the meter asks for at one dpi.
#[derive(Clone, Copy, Debug, PartialEq, Eq, Structural)]
pub struct FontHeights {
    pub title: i32,
    pub big: i32,
    pub normal: i32,
}

impl FontHeights {
    /// The font heights at `scale` dpi.
    pub open spec fn spec_new(scale: int) -> FontHeights {
        FontHeights {
            title: -scaled(28, scale) as i32,
            big: -scaled(56, scale) as i32,
            normal: -scaled(18, scale) as i32,
        }
    }

    /// Scales the three design font heights to `scale` dpi.
    pub fn new(scale: i32) -> (h: FontHeights)
        requires
            i32::MIN <= BIG_FONT_PX * scale <= i32::MAX,
        ensures
            h == FontHeights::spec_new(scale as int),
    {
        proof {
            lemma_scaled_bound(28, 56, scale as int);
            lemma_scaled_bound(18, 56, scale as int);
        }
        FontHeights {
            title: font_height(TITLE_FONT_PX, scale),
            big: font_height(BIG_FONT_PX, scale),
            normal: font_height(NORMAL_FONT_PX, scale),
        }
    }
}

/// None of the three font heights grows with the dpi: the fonts never shrink
/// as the dpi rises.
pub proof fn lemma_font_heights_monotone(scale1: int, scale2: int)
    requires
        0 < scale1 <= scale2,
        BIG_FONT_PX * scale2 <= i32::MAX,
    ensures
        FontHeights::spec_new(scale2).title <= FontHeights::spec_new(scale1).title,
        FontHeights::spec_new(scale2).big <= FontHeights::spec_new(scale1).big,
        FontHeights::spec_new(scale2).normal <= FontHeights::spec_new(scale1).normal,
{
    lemma_font_height_monotone(28, scale1, scale2);
    lemma_font_height_monotone(56, scale1, scale2);
    lemma_font_height_monotone(18, scale1, scale2);
    lemma_scaled_bound(28, 56, scale2);
    lemma_scaled_bound(18, 56, scale2);
    lemma_scaled_bound(28, 56, scale1);
    lemma_scaled_bound(18, 56, scale1);
    assert(BIG_FONT_PX * scale1 <= BIG_FONT_PX * scale2);
}

/// A shorter design length times the dpi fits wherever a longer one does.
proof fn lemma_scaled_bound(v: int, big: int, dpi: int)
    requires
        0 <= v <= big,
        i32::MIN <= big * dpi <= i32::MAX,
    ensures
        i32::MIN <= v * dpi <= i32::MAX,
{
    assert(i32::MIN <= v * dpi <= i32::MAX) by (nonlinear_arith)
        requires
            0 <= v <= big,
            i32::MIN <= big * dpi <= i32::MAX,
    {
        if dpi >= 0 {
            assert(v * dpi <= big * dpi);
        } else {
            assert(v * dpi >= big * dpi);
        }
    }
}

/// A rectangle in window pixels; `right` and `bottom` are exclusive.
#[derive(Clone, Copy, Debug, PartialEq, Eq, Structural)]
pub struct PixelRect {
    pub left: i32,
    pub top: i32,
    pub right: i32,
    pub bottom: i32,
}

/// Where everything is drawn at one dpi.
#[derive(Clone, Copy, Debug, PartialEq, Eq, Structural)]
pub struct PaintLayout {
    /// The dpi the layout is scaled to.
    pub dpi: i32,
    /// Client width and height.
    pub width: i32,
    pub height: i32,
    /// Left edge of all text and of the bar.
    pub margin: i32,
    /// Top of the title line.
    pub title_y: i32,
    /// Top of the large rate read-out.
    pub rate_y: i32,
    /// The bar's track.
    pub track: PixelRect,
    /// Width of the track, which a rate of 1000 Hz fills.
    pub track_width: i32,
    /// Top of the first statistics line, and the distance between lines.
    pub stats_top: i32,
    pub stats_step: i32,
    /// Top of the hint line.
    pub hint_y: i32,
}

/// The scale factors that `for_dpi` admits: the widest length fits in `i32`.
pub open spec fn dpi_fits(dpi: int) -> bool {
    i32::MIN <= WIDTH * dpi <= i32::MAX
}

/// At an admitted dpi, a design length of at most 640 scales to at most
/// 35000 pixels per design pixel.
proof fn lemma_scaled_small(v: int, dpi: int)
    requires
        0 <= v <= 640,
        dpi_fits(dpi),
    ensures
        -35000 * v <= scaled(v, dpi) <= 35000 * v,
{
    assert(-3355444 <= dpi <= 3355443);
    let p = v * dpi;
    assert(-3355444 * v <= p <= 3355443 * v) by (nonlinear_arith)
        requires
            0 <= v,
            -3355444 <= dpi <= 3355443,
            p == v * dpi,
    ;
    if p >= 0 {
        assert(p / 96 <= 35000 * v);
    } else {
        assert((-p) / 96 <= 35000 * v);
    }
}

/// The colour of the bar for a rate: green from 900 Hz, amber from 400 Hz,
/// red below.
pub open spec fn spec_bar_color(r: PollRate) -> u32 {
    if r.reaches_hz(900) {
        BAR_COLOR_HIGH
    } else if r.reaches_hz(400) {
        BAR_COLOR_MID
    } else {
        BAR_COLOR_LOW
    }
}

/// Picks the bar colour for a rate.
pub fn bar_color(rate: &PollRate) -> (c: u32)
    ensures
        c == spec_bar_color(*rate),
{
    if rate.reaches(900) {
        BAR_COLOR_HIGH
    } else if rate.reaches(400) {
        BAR_COLOR_MID
    } else {
        BAR_COLOR_LOW
    }
}

/// How much of a track `track_width` wide a rate fills: the rate over
/// 1000 Hz, capped at the whole track, times the width, rounded toward zero.
pub open spec fn spec_fill_width(r: PollRate, track_width: int) -> int {
    if r.reaches_hz(1000) {
        track_width
    } else {
        div_toward_zero(r.intervals * 1000 * track_width, r.micros as int)
    }
}

/// The filled width of a track `track_width` wide at `rate`.
pub fn bar_fill_width(rate: &PollRate, track_width: i32) -> (w: i32)
    requires
        rate.wf(),
    ensures
        w == spec_fill_width(*rate, track_width as int),
        0 <= w <= track_width || track_width <= w <= 0,
{
    if rate.reaches(1000) {
        track_width
    } else {
        let ghost i = rate.intervals as int;
        let ghost m = rate.micros as int;
        let ghost t = track_width as int;
        assert(i * 1000 < m);
        assert(-0x8000_0000 * 0x1_0000_0000_0000_0000 * 1000 <= i * 1000 * t
            <= 0x8000_0000 * 0x1_0000_0000_0000_0000 * 1000) by (nonlinear_arith)
            requires
                0 <= i < 0x1_0000_0000_0000_0000,
                -0x8000_0000 <= t < 0x8000_0000,
        ;
        let num: i128 = (rate.intervals as i128) * 1000 * (track_width as i128);
        let q: i128 = num / (rate.micros as i128);
        assert(num == i * 1000 * t);
        proof {
            if t >= 0 {
                assert(0 <= (i * 1000 * t) / m <= t) by (nonlinear_arith)
                    requires
                        0 <= i * 1000 < m,
                        0 <= t,
                {
                    assert(i * 1000 * t <= m * t);
                    assert((m * t) / m == t);
                }
            } else {
                assert(0 <= (i * 1000 * (-t)) / m <= -t) by (nonlinear_arith)
                    requires
                        0 <= i * 1000 < m,
                        0 < -t,
                {
                    assert(i * 1000 * (-t) <= m * (-t));
                    assert((m * (-t)) / m == -t);
                }
                assert(-(i * 1000 * t) == i * 1000 * (-t)) by (nonlinear_arith);
            }
        }
        q as i32
    }
}

/// The bar shows one of exactly three colours: green (0x00AA00) from
/// 900 Hz, amber (0x00AAFF) from 400 Hz up to 900 Hz, and red (0xFF4444)
/// below 400 Hz, the frequency being intervals * 1_000_000 / micros.
pub proof fn lemma_bar_color_three_bands(r: PollRate)
    ensures
        (spec_bar_color(r) == 0x00AA00u32) <==> r.intervals * 1_000_000 >= 900 * r.micros,
        (spec_bar_color(r) == 0x00AAFFu32) <==> 400 * r.micros <= r.intervals * 1_000_000 < 900
            * r.micros,
        (spec_bar_color(r) == 0xFF4444u32) <==> r.intervals * 1_000_000 < 400 * r.micros,
{
}

/// The filled width is the track width times the frequency over 1000 Hz,
/// rounded down, and the whole track from 1000 Hz on: below that,
/// `fill * micros <= intervals * 1000 * width < (fill + 1) * micros`.
pub proof fn lemma_fill_width_is_floor(r: PollRate, width: int)
    requires
        r.wf(),
        width >= 0,
    ensures
        r.intervals * 1000 >= r.micros ==> spec_fill_width(r, width) == width,
        r.intervals * 1000 < r.micros ==> {
            let f = spec_fill_width(r, width);
            &&& 0 <= f <= width
            &&& f * r.micros <= r.intervals * 1000 * width < (f + 1) * r.micros
        },
{
    if r.intervals * 1000 < r.micros {
        let x = r.intervals * 1000 * width;
        let m = r.micros as int;
        assert(x >= 0) by (nonlinear_arith)
            requires
                r.intervals >= 0,
                width >= 0,
                x == r.intervals * 1000 * width,
        ;
        vstd::arithmetic::div_mod::lemma_fundamental_div_mod(x, m);
        vstd::arithmetic::div_mod::lemma_mod_bound(x, m);
        let f = x / m;
        assert(f * m <= x < (f + 1) * m) by (nonlinear_arith)
            requires
                x == m * f + x % m,
                0 <= x % m < m,
        ;
        assert(0 <= f <= width) by (nonlinear_arith)
            requires
                0 <= r.intervals * 1000 < m,
                width >= 0,
                x == r.intervals * 1000 * width,
                f * m <= x,
                x < (f + 1) * m,
        {
            assert(x <= m * width);
            if f > width {
                assert(f * m >= (width + 1) * m);
            }
            if f < 0 {
                assert((f + 1) * m <= 0);
            }
        }
    }
}

/// The rank of a bar colour: red 0, amber 1, green 2.
pub open spec fn color_rank(c: u32) -> int {
    if c == BAR_COLOR_HIGH {
        2
    } else if c == BAR_COLOR_MID {
        1
    } else {
        0
    }
}

/// A higher rate never shows a lower-ranked bar colour.
pub proof fn lemma_color_monotone(a: PollRate, b: PollRate)
    requires
        a.wf(),
        b.wf(),
        a.rate_le(b),
    ensures
        color_rank(spec_bar_color(a)) <= color_rank(spec_bar_color(b)),
{
    if a.reaches_hz(900) {
        lemma_reaches_monotone(a, b, 900);
    }
    if a.reaches_hz(400) {
        lemma_reaches_monotone(a, b, 400);
    }
}

/// A higher rate fills at least as much of a track.
pub proof fn lemma_fill_monotone(a: PollRate, b: PollRate, track_width: int)
    requires
        a.wf(),
        b.wf(),
        a.rate_le(b),
        track_width >= 0,
    ensures
        0 <= spec_fill_width(a, track_width) <= spec_fill_width(b, track_width) <= track_width,
{
    let (ai, am, bi, bm) = (a.intervals as int, a.micros as int, b.intervals as int, b.micros as int);
    let w = track_width;
    if a.reaches_hz(1000) {
        lemma_reaches_monotone(a, b, 1000);
    } else {
        assert(ai * 1000 < am);
        let x = ai * 1000 * w;
        assert(0 <= x / am <= w) by (nonlinear_arith)
            requires
                0 <= ai * 1000 < am,
                0 <= w,
                x == ai * 1000 * w,
        {
            assert(x <= am * w);
            assert((am * w) / am == w);
        }
        if !b.reaches_hz(1000) {
            let y = bi * 1000 * w;
            assert(x / am <= y / bm) by (nonlinear_arith)
                requires
                    am > 0,
                    bm > 0,
                    ai >= 0,
                    w >= 0,
                    ai * bm <= bi * am,
                    x == ai * 1000 * w,
                    y == bi * 1000 * w,
            {
                let q = x / am;
                assert(q * am <= x);
                assert(x * bm <= y * am);
                assert(q * bm * am <= y * am);
                assert(q * bm <= y);
            }
            assert(0 <= y / bm <= w) by (nonlinear_arith)
                requires
                    0 <= bi * 1000 < bm,
                    0 <= w,
                    y == bi * 1000 * w,
            {
                assert(y <= bm * w);
                assert((bm * w) / bm == w);
            }
        }
    }
}

/// The layout at a dpi is the 96-dpi design scaled: each position is the
/// design's position times the dpi over 96, rounded down, so the track is
/// 560 design pixels wide at every dpi and the bar of a rate of 1000 Hz or
/// more ends at the track's right edge (within the one pixel that rounding
/// the two edges separately can cost).
pub proof fn lemma_layout_scales_design(dpi: int)
    requires
        dpi_fits(dpi),
        dpi >= 0,
    ensures
        ({
            let l = PaintLayout::spec_for_dpi(dpi);
            &&& l.width == 640 * dpi / 96
            &&& l.height == 400 * dpi / 96
            &&& l.margin == 20 * dpi / 96
            &&& l.title_y == 20 * dpi / 96
            &&& l.rate_y == 55 * dpi / 96
            &&& l.track.left == 20 * dpi / 96
            &&& l.track.top == 130 * dpi / 96
            &&& l.track.right == 580 * dpi / 96
            &&& l.track.bottom == 140 * dpi / 96
            &&& l.track_width == 560 * dpi / 96
            &&& l.stats_top == 165 * dpi / 96
            &&& l.stats_step == 30 * dpi / 96
            &&& l.hint_y == 310 * dpi / 96
            &&& l.track.left == l.margin
            &&& l.track.right - 1 <= l.margin + l.track_width <= l.track.right
        }),
        forall|r: PollRate|
            r.wf() && r.intervals * 1000 >= r.micros ==> {
                &&& #[trigger] spec_fill_width(r, PaintLayout::spec_for_dpi(dpi).track_width as int)
                    == PaintLayout::spec_for_dpi(dpi).track_width
                &&& PaintLayout::spec_for_dpi(dpi).track.right - 1 <= PaintLayout::spec_for_dpi(
                    dpi,
                ).margin + spec_fill_width(r, PaintLayout::spec_for_dpi(dpi).track_width as int)
                    <= PaintLayout::spec_for_dpi(dpi).track.right
            },
{
    lemma_scaled_small(640, dpi);
    lemma_scaled_small(580, dpi);
    lemma_scaled_small(560, dpi);
    lemma_scaled_small(400, dpi);
    lemma_scaled_small(310, dpi);
    lemma_scaled_small(165, dpi);
    lemma_scaled_small(140, dpi);
    lemma_scaled_small(130, dpi);
    lemma_scaled_small(55, dpi);
    lemma_scaled_small(30, dpi);
    lemma_scaled_small(20, dpi);
    assert(580 * dpi >= 0 && 20 * dpi >= 0 && 560 * dpi >= 0);
    assert(580 * dpi / 96 - 20 * dpi / 96 - 560 * dpi / 96 <= 1);
    assert(580 * dpi / 96 - 20 * dpi / 96 - 560 * dpi / 96 >= 0);
}

impl PaintLayout {
    /// Built by `for_dpi` at an admitted dpi.
    pub open spec fn wf(self) -> bool {
        &&& dpi_fits(self.dpi as int)
        &&& self == PaintLayout::spec_for_dpi(self.dpi as int)
    }

    /// Top of statistics line `i`, for the four lines from 0 to 3.
    pub fn stat_line_y(&self, i: i32) -> (y: i32)
        requires
            self.wf(),
            0 <= i < 4,
        ensures
            y == self.stats_top + i * self.stats_step,
    {
        proof {
            lemma_scaled_small(165, self.dpi as int);
            lemma_scaled_small(30, self.dpi as int);
            assert(-35000 * 90 <= i * self.stats_step <= 35000 * 90) by (nonlinear_arith)
                requires
                    0 <= i < 4,
                    -35000 * 30 <= self.stats_step <= 35000 * 30,
            ;
        }
        self.stats_top + i * self.stats_step
    }

    /// The filled part of the bar at `rate` and its colour; `None` when the
    /// filled width is not positive and nothing is drawn.
    pub fn bar_fill(&self, rate: &PollRate) -> (fill: Option<(PixelRect, u32)>)
        requires
            self.wf(),
            rate.wf(),
        ensures
            match fill {
                Some((rect, color)) => {
                    &&& spec_fill_width(*rate, self.track_width as int) > 0
                    &&& rect == (PixelRect {
                        left: self.margin,
                        top: self.track.top,
                        right: (self.margin + spec_fill_width(*rate, self.track_width as int)) as i32,
                        bottom: self.track.bottom,
                    })
                    &&& color == spec_bar_color(*rate)
                },
                None => spec_fill_width(*rate, self.track_width as int) <= 0,
            },
    {
        let w = bar_fill_width(rate, self.track_width);
        if w > 0 {
            proof {
                lemma_scaled_small(20, self.dpi as int);
                lemma_scaled_small(560, self.dpi as int);
            }
            let rect = PixelRect {
                left: self.margin,
                top: self.track.top,
                right: self.margin + w,
                bottom: self.track.bottom,
            };
            Some((rect, bar_color(rate)))
        } else {
            None
        }
    }

    /// The layout at `dpi`, each position the 96-dpi one scaled.
    pub open spec fn spec_for_dpi(dpi: int) -> PaintLayout {
        PaintLayout {
            dpi: dpi as i32,
            width: scaled(640, dpi) as i32,
            height: scaled(400, dpi) as i32,
            margin: scaled(20, dpi) as i32,
            title_y: scaled(20, dpi) as i32,
            rate_y: scaled(55, dpi) as i32,
            track: PixelRect {
                left: scaled(20, dpi) as i32,
                top: scaled(130, dpi) as i32,
                right: scaled(580, dpi) as i32,
                bottom: scaled(140, dpi) as i32,
            },
            track_width: scaled(560, dpi) as i32,
            stats_top: scaled(165, dpi) as i32,
            stats_step: scaled(30, dpi) as i32,
            hint_y: scaled(310, dpi) as i32,
        }
    }

    /// Scales the 96-dpi design to `dpi`.
    pub fn for_dpi(dpi: i32) -> (l: PaintLayout)
        requires
            dpi_fits(dpi as int),
        ensures
            l == PaintLayout::spec_for_dpi(dpi as int),
    {
        proof {
            lemma_scaled_bound(400, 640, dpi as int);
            lemma_scaled_bound(20, 640, dpi as int);
            lemma_scaled_bound(55, 640, dpi as int);
            lemma_scaled_bound(130, 640, dpi as int);
            lemma_scaled_bound(580, 640, dpi as int);
            lemma_scaled_bound(140, 640, dpi as int);
            lemma_scaled_bound(560, 640, dpi as int);
            lemma_scaled_bound(165, 640, dpi as int);
            lemma_scaled_bound(30, 640, dpi as int);
            lemma_scaled_bound(310, 640, dpi as int);
        }
        PaintLayout {
            dpi,
            width: scale_px(WIDTH, dpi),
            height: scale_px(HEIGHT, dpi),
            margin: scale_px(20, dpi),
            title_y: scale_px(20, dpi),
            rate_y: scale_px(55, dpi),
            track: PixelRect {
                left: scale_px(20, dpi),
                top: scale_px(130, dpi),
                right: scale_px(580, dpi),
                bottom: scale_px(140, dpi),
            },
            track_width: scale_px(560, dpi),
            stats_top: scale_px(165, dpi),
            stats_step: scale_px(30, dpi),
            hint_y: scale_px(310, dpi),
        }
    }
}

} // verus!
