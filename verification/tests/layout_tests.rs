use mouse_poll_rate_tester::layout::{
    bar_color, bar_fill_width, font_height, FontHeights, scale_px, PaintLayout, PixelRect, BAR_COLOR_HIGH,
    BAR_COLOR_LOW, BAR_COLOR_MID,
};
use mouse_poll_rate_tester::rate::PollRate;

#[test]
fn layout_at_96_dpi_is_the_design() {
    let l = PaintLayout::for_dpi(96);
    assert_eq!((l.width, l.height), (640, 400));
    assert_eq!((l.margin, l.title_y, l.rate_y), (20, 20, 55));
    assert_eq!(l.track, PixelRect { left: 20, top: 130, right: 580, bottom: 140 });
    assert_eq!(l.track_width, 560);
    assert_eq!((l.stats_top, l.stats_step, l.hint_y), (165, 30, 310));
    assert_eq!(l.stat_line_y(0), 165);
    assert_eq!(l.stat_line_y(3), 255);
}

#[test]
fn layout_scales_with_dpi() {
    let l = PaintLayout::for_dpi(144);
    assert_eq!((l.width, l.height), (960, 600));
    assert_eq!(l.track, PixelRect { left: 30, top: 195, right: 870, bottom: 210 });
    assert_eq!(l.rate_y, 82);
    assert_eq!(l.stat_line_y(2), 247 + 2 * 45);
}

#[test]
fn scaling_rounds_toward_zero() {
    assert_eq!(scale_px(55, 144), 82);
    assert_eq!(scale_px(1, 48), 0);
    assert_eq!(scale_px(-1, 144), -1);
    assert_eq!(scale_px(-10, 96), -10);
    assert_eq!(font_height(28, 96), -28);
    assert_eq!(font_height(56, 120), -70);
    assert_eq!(font_height(18, 144), -27);
}

#[test]
fn bar_colour_thresholds() {
    assert_eq!(bar_color(&PollRate { intervals: 9, micros: 10_000 }), BAR_COLOR_HIGH);
    assert_eq!(bar_color(&PollRate { intervals: 899_999, micros: 1_000_000_000 }), BAR_COLOR_MID);
    assert_eq!(bar_color(&PollRate { intervals: 2, micros: 5_000 }), BAR_COLOR_MID);
    assert_eq!(bar_color(&PollRate { intervals: 399, micros: 1_000_000 }), BAR_COLOR_LOW);
    assert_eq!(bar_color(&PollRate::zero()), BAR_COLOR_LOW);
}

#[test]
fn bar_fill_width_is_capped_and_rounded_toward_zero() {
    // 500 Hz fills half of the track.
    assert_eq!(bar_fill_width(&PollRate { intervals: 1, micros: 2000 }, 560), 280);
    // 2000 Hz fills all of it.
    assert_eq!(bar_fill_width(&PollRate { intervals: 2, micros: 1000 }, 560), 560);
    // 1/3 of 1000 Hz over 560 pixels is 186.67 pixels.
    assert_eq!(bar_fill_width(&PollRate { intervals: 1, micros: 3000 }, 560), 186);
    assert_eq!(bar_fill_width(&PollRate { intervals: 1, micros: 3000 }, -560), -186);
    assert_eq!(bar_fill_width(&PollRate::zero(), 560), 0);
}

#[test]
fn higher_rates_fill_more_and_rank_higher() {
    let rates = [
        PollRate { intervals: 1, micros: 10_000 },
        PollRate { intervals: 1, micros: 2_000 },
        PollRate { intervals: 9, micros: 10_000 },
        PollRate { intervals: 3, micros: 2_000 },
    ];
    let rank = |c: u32| if c == BAR_COLOR_HIGH { 2 } else if c == BAR_COLOR_MID { 1 } else { 0 };
    for w in rates.windows(2) {
        assert!(bar_fill_width(&w[0], 560) <= bar_fill_width(&w[1], 560));
        assert!(rank(bar_color(&w[0])) <= rank(bar_color(&w[1])));
    }
}

#[test]
fn bar_fill_rectangle_and_colour() {
    let l = PaintLayout::for_dpi(96);
    assert_eq!(
        l.bar_fill(&PollRate { intervals: 1, micros: 2000 }),
        Some((PixelRect { left: 20, top: 130, right: 300, bottom: 140 }, BAR_COLOR_MID))
    );
    assert_eq!(
        l.bar_fill(&PollRate { intervals: 1, micros: 1000 }),
        Some((PixelRect { left: 20, top: 130, right: 580, bottom: 140 }, BAR_COLOR_HIGH))
    );
    assert_eq!(l.bar_fill(&PollRate::zero()), None);
    // Below 1/560 of 1000 Hz nothing is drawn.
    assert_eq!(l.bar_fill(&PollRate { intervals: 1, micros: 600_000 }), None);
}

#[test]
fn font_heights_never_grow_with_dpi() {
    for base in [18, 28, 56] {
        let mut prev = font_height(base, 1);
        for dpi in [48, 96, 120, 144, 192, 288] {
            let h = font_height(base, dpi);
            assert!(h <= prev);
            prev = h;
        }
    }
}

#[test]
fn font_heights_for_the_three_fonts() {
    let h = FontHeights::new(96);
    assert_eq!((h.title, h.big, h.normal), (-28, -56, -18));
    let h2 = FontHeights::new(144);
    assert_eq!((h2.title, h2.big, h2.normal), (-42, -84, -27));
    assert!(h2.title <= h.title && h2.big <= h.big && h2.normal <= h.normal);
}
