use rust_text_draw::color::{parse_color, Rgba};
use rust_text_draw::compose::{
    blend, composite_units, render, render_widget, shaped_extent, Coverage, LineMetrics,
    ResultDrawText, Shaped,
};
use rust_text_draw::error::RenderError;
use rust_text_draw::layout::{layout, layout_until_error, resolve_box, resolve_font};
use rust_text_draw::raster::Raster;
use rust_text_draw::units::{resolve, resolve_fine, UnitPolicy};
use rust_text_draw::widget::{Frame, HAlign, LayoutContext, Placed, Style, Texts, VAlign, Widget};

const WHITE: Rgba = Rgba { r: 255, g: 255, b: 255, a: 255 };
const BLACK: Rgba = Rgba { r: 0, g: 0, b: 0, a: 255 };
const CLEAR: Rgba = Rgba { r: 0, g: 0, b: 0, a: 0 };

fn ctx(raster_width: u32) -> LayoutContext {
    LayoutContext { policy: UnitPolicy::Percent, raster_width, font_count: 3 }
}

fn style() -> Style {
    Style { font: 0, font_size: 240, color: "000000".to_string() }
}

fn frame(x: u32, y: u32, width: u32, height: u32) -> Frame {
    Frame { x, y, width, height }
}

fn placed(f: Frame, fill: Option<Rgba>, place: VAlign) -> Placed {
    Placed { frame: f, fill, runs: Vec::new(), align: HAlign::Start, place }
}

fn unit(x: i32, y: i32, color: Rgba) -> Coverage {
    Coverage { x, y, w: 1, h: 1, color }
}

fn no_text() -> Shaped {
    Shaped { lines: Vec::new(), units: Vec::new() }
}

#[test]
fn percent_and_literal_resolution() {
    assert_eq!(resolve(5000, 400, UnitPolicy::Percent), 200);
    assert_eq!(resolve(3333, 300, UnitPolicy::Percent), 99);
    assert_eq!(resolve(150, 10, UnitPolicy::Literal { scale: 4 }), 6);
    assert_eq!(resolve_fine(450, 1000, UnitPolicy::Percent), 4500);
}

#[test]
fn child_width_is_percent_of_parent_box() {
    let mut child = Widget::new();
    child.w = Some(5000);
    let mut parent = Widget::new();
    parent.x = Some(1000);
    parent.w = Some(4000);
    parent.children.push(child);
    let out = layout(&vec![parent], frame(0, 0, 1000, 1000), &style(), ctx(1000)).unwrap();
    assert_eq!(out.len(), 2);
    assert_eq!(out[0].frame, frame(100, 0, 400, 1000));
    assert_eq!(out[1].frame.width, 200);
    assert_eq!(out[1].frame.x, 100);
}

#[test]
fn margins_shrink_the_box_and_clamp_at_zero() {
    let mut w = Widget::new();
    w.margin_left = Some(1000);
    w.margin_right = Some(1000);
    w.margin_top = Some(500);
    assert_eq!(resolve_box(&w, frame(10, 20, 400, 200), UnitPolicy::Percent), frame(50, 30, 320, 190));
    let mut wide = Widget::new();
    wide.margin_left = Some(6000);
    wide.margin_right = Some(6000);
    assert_eq!(resolve_box(&wide, frame(0, 0, 400, 200), UnitPolicy::Percent).width, 0);
}

#[test]
fn literal_policy_box() {
    let mut w = Widget::new();
    w.x = Some(250);
    w.w = Some(1000);
    let f = resolve_box(&w, frame(5, 0, 400, 200), UnitPolicy::Literal { scale: 2 });
    assert_eq!(f, frame(10, 0, 20, 200));
}

#[test]
fn font_id_out_of_range_falls_back_to_first() {
    assert_eq!(resolve_font(99, 3), 0);
    assert_eq!(resolve_font(2, 3), 2);
    let mut span = Texts::new("hi".to_string());
    span.font = Some(99);
    let mut w = Widget::new();
    w.spans.push(span);
    let out = layout(&vec![w], frame(0, 0, 100, 100), &style(), ctx(100)).unwrap();
    assert_eq!(out[0].runs[0].font, 0);
}

#[test]
fn colors_parse_six_hex_digits_only() {
    assert_eq!(parse_color("ff8000"), Some(Rgba { r: 255, g: 128, b: 0, a: 255 }));
    assert_eq!(parse_color("FF8000"), Some(Rgba { r: 255, g: 128, b: 0, a: 255 }));
    assert_eq!(parse_color("0c87a5"), Some(Rgba { r: 12, g: 135, b: 165, a: 255 }));
    assert_eq!(parse_color("fff"), None);
    assert_eq!(parse_color("gg0000"), None);
    assert_eq!(parse_color("ff800000"), None);
    assert_eq!(parse_color(""), None);
}

#[test]
fn malformed_fill_is_an_error() {
    let mut w = Widget::new();
    w.fill = Some("xyz".to_string());
    let r = layout(&vec![w], frame(0, 0, 100, 100), &style(), ctx(100));
    assert_eq!(r.unwrap_err(), RenderError::InvalidColor);
}

#[test]
fn malformed_span_color_in_a_child_is_an_error() {
    let mut span = Texts::new("x".to_string());
    span.color = Some("12345z".to_string());
    let mut child = Widget::new();
    child.spans.push(span);
    let mut parent = Widget::new();
    parent.children.push(child);
    let r = layout(&vec![parent], frame(0, 0, 100, 100), &style(), ctx(100));
    assert_eq!(r.unwrap_err(), RenderError::InvalidColor);
}

#[test]
fn runs_take_sizes_from_raster_width_and_skip_empty_spans() {
    let mut w = Widget::new();
    w.spans.push(Texts::new(String::new()));
    w.spans.push(Texts::new("a".to_string()));
    let mut big = Texts::new("b".to_string());
    big.font_size = Some(800);
    big.color = Some("C63658".to_string());
    w.spans.push(big);
    let out = layout(&vec![w], frame(0, 0, 1000, 1000), &style(), ctx(1000)).unwrap();
    let runs = &out[0].runs;
    assert_eq!(runs.len(), 2);
    assert_eq!(runs[0].text, "a");
    assert_eq!(runs[0].size, 2400);
    assert_eq!(runs[0].line_height, 3600);
    assert_eq!(runs[0].color, BLACK);
    assert_eq!(runs[1].size, 8000);
    assert_eq!(runs[1].line_height, 12000);
    assert_eq!(runs[1].color, Rgba { r: 0xc6, g: 0x36, b: 0x58, a: 255 });
}

#[test]
fn children_inherit_the_parent_style() {
    let mut child = Widget::new();
    child.spans.push(Texts::new("c".to_string()));
    let mut parent = Widget::new();
    parent.color = Some("ff0000".to_string());
    parent.font = Some(2);
    parent.font_size = Some(100);
    parent.line_height = Some(200);
    parent.children.push(child);
    let out = layout(&vec![parent], frame(0, 0, 500, 500), &style(), ctx(500)).unwrap();
    let run = &out[1].runs[0];
    assert_eq!(run.color, Rgba { r: 255, g: 0, b: 0, a: 255 });
    assert_eq!(run.font, 2);
    assert_eq!(run.size, 500);
    assert_eq!(run.line_height, 750);
}

#[test]
fn preorder_places_each_widget_before_its_children() {
    let mut a = Widget::new();
    a.fill = Some("000001".to_string());
    let mut a1 = Widget::new();
    a1.fill = Some("000002".to_string());
    a.children.push(a1);
    let mut b = Widget::new();
    b.fill = Some("000003".to_string());
    let out = layout(&vec![a, b], frame(0, 0, 10, 10), &style(), ctx(10)).unwrap();
    let blues: Vec<u8> = out.iter().map(|p| p.fill.unwrap().b).collect();
    assert_eq!(blues, vec![1, 2, 3]);
}

#[test]
fn raster_construction() {
    let r = Raster::new(2, 3);
    assert_eq!(r.pixels.len(), 6);
    assert!(r.pixels.iter().all(|p| *p == CLEAR));
    assert!(Raster::from_pixels(2, 2, vec![CLEAR; 3]).is_none());
    assert!(Raster::from_pixels(2, 2, vec![CLEAR; 4]).is_some());
}

#[test]
fn fill_sets_exactly_the_box() {
    let mut r = Raster::new(4, 4);
    r.fill_box(frame(1, 1, 2, 2), WHITE);
    for y in 0..4 {
        for x in 0..4 {
            let inside = (1..3).contains(&x) && (1..3).contains(&y);
            assert_eq!(r.get_pixel(x, y), if inside { WHITE } else { CLEAR });
        }
    }
}

#[test]
fn fill_is_clipped_to_the_raster() {
    let mut r = Raster::new(4, 4);
    r.fill_box(frame(3, 3, 5, 5), WHITE);
    assert_eq!(r.get_pixel(3, 3), WHITE);
    assert_eq!(r.pixels.iter().filter(|p| **p == WHITE).count(), 1);
}

#[test]
fn opaque_source_replaces_destination() {
    let red = Rgba { r: 255, g: 0, b: 0, a: 255 };
    assert_eq!(blend(red, WHITE), red);
    assert_eq!(blend(red, CLEAR), red);
    assert_eq!(blend(red, Rgba { r: 1, g: 2, b: 3, a: 77 }), red);
}

#[test]
fn transparent_source_leaves_destination() {
    let dst = Rgba { r: 10, g: 20, b: 30, a: 255 };
    assert_eq!(blend(Rgba { r: 200, g: 100, b: 50, a: 0 }, dst), dst);
    let mut r = Raster::new(2, 2);
    r.fill_box(frame(0, 0, 2, 2), dst);
    let n = composite_units(&mut r, frame(0, 0, 2, 2), VAlign::Top, 0, &vec![unit(1, 1, CLEAR), unit(9, 9, CLEAR)]);
    assert_eq!(n, 0);
    assert!(r.pixels.iter().all(|p| *p == dst));
}

#[test]
fn half_alpha_blend_value() {
    let src = Rgba { r: 255, g: 255, b: 255, a: 128 };
    assert_eq!(blend(src, BLACK), Rgba { r: 128, g: 128, b: 128, a: 255 });
    assert_eq!(blend(Rgba { r: 0, g: 0, b: 0, a: 128 }, WHITE), Rgba { r: 127, g: 127, b: 127, a: 255 });
    assert_eq!(blend(src, CLEAR), Rgba { r: 128, g: 128, b: 128, a: 128 });
}

#[test]
fn shaped_extent_is_widest_line_and_summed_height() {
    let lines = vec![LineMetrics { width: 5, height: 7 }, LineMetrics { width: 9, height: 8 }, LineMetrics { width: 3, height: 1 }];
    assert_eq!(shaped_extent(&lines), (9, 16));
    assert_eq!(shaped_extent(&Vec::new()), (0, 0));
}

#[test]
fn overflow_by_one_row_aborts() {
    let mut r = Raster::new(20, 20);
    let first = placed(frame(0, 0, 10, 10), None, VAlign::Top);
    let second = placed(frame(0, 0, 20, 20), Some(WHITE), VAlign::Top);
    let tall = Shaped { lines: vec![LineMetrics { width: 5, height: 11 }], units: Vec::new() };
    let res = render(&mut r, &vec![first, second], &vec![tall, no_text()], true);
    assert_eq!(
        res,
        Err(RenderError::TextOverflow { shaped_width: 5, shaped_height: 11, box_width: 10, box_height: 10 })
    );
}

#[test]
fn overflow_is_ignored_when_validation_is_off() {
    let mut r = Raster::new(20, 20);
    let p = placed(frame(0, 0, 10, 10), None, VAlign::Top);
    let wide = Shaped { lines: vec![LineMetrics { width: 11, height: 5 }], units: vec![unit(2, 2, BLACK)] };
    assert_eq!(render_widget(&mut r, &p, &wide, true), Err(RenderError::TextOverflow { shaped_width: 11, shaped_height: 5, box_width: 10, box_height: 10 }));
    assert_eq!(render_widget(&mut r, &p, &wide, false), Ok(0));
    assert_eq!(r.get_pixel(2, 2), BLACK);
}

#[test]
fn middle_and_bottom_placement_offsets() {
    let lines = vec![LineMetrics { width: 4, height: 10 }];
    let mut r = Raster::new(30, 40);
    let mid = placed(frame(3, 5, 20, 20), None, VAlign::Middle);
    assert_eq!(render_widget(&mut r, &mid, &Shaped { lines: lines.clone(), units: vec![unit(1, 0, BLACK)] }, true), Ok(0));
    assert_eq!(r.get_pixel(4, 10), BLACK);
    let mut r = Raster::new(30, 40);
    let odd = placed(frame(0, 0, 21, 21), None, VAlign::Middle);
    let odd_lines = vec![LineMetrics { width: 4, height: 9 }];
    assert_eq!(render_widget(&mut r, &odd, &Shaped { lines: odd_lines, units: vec![unit(0, 0, BLACK)] }, true), Ok(0));
    assert_eq!(r.get_pixel(0, 6), BLACK);
    let mut r = Raster::new(30, 40);
    let bottom = placed(frame(3, 5, 20, 20), None, VAlign::Bottom);
    assert_eq!(render_widget(&mut r, &bottom, &Shaped { lines, units: vec![unit(1, 0, BLACK)] }, true), Ok(0));
    assert_eq!(r.get_pixel(4, 15), BLACK);
}

#[test]
fn samples_off_the_raster_are_counted_not_written() {
    let mut r = Raster::new(10, 10);
    let p = placed(frame(5, 5, 100, 100), None, VAlign::Top);
    let s = Shaped {
        lines: Vec::new(),
        units: vec![unit(10, 0, BLACK), unit(0, 10, BLACK), unit(1, 1, BLACK), unit(-1, 0, BLACK), Coverage { x: 0, y: 0, w: 2, h: 1, color: BLACK }],
    };
    assert_eq!(render(&mut r, &vec![p], &vec![s], false), Ok(ResultDrawText { count_pixel_out: 2 }));
    assert_eq!(r.pixels.iter().filter(|p| **p == BLACK).count(), 1);
    assert_eq!(r.get_pixel(6, 6), BLACK);
}

#[test]
fn empty_widget_leaves_raster_untouched() {
    let out = layout(&vec![Widget::new()], frame(0, 0, 8, 8), &style(), ctx(8)).unwrap();
    assert_eq!(out.len(), 1);
    assert!(out[0].fill.is_none());
    assert!(out[0].runs.is_empty());
    let mut r = Raster::new(8, 8);
    r.put_pixel(3, 4, Rgba { r: 9, g: 8, b: 7, a: 6 });
    let before = r.pixels.clone();
    assert_eq!(render(&mut r, &out, &vec![no_text()], true), Ok(ResultDrawText { count_pixel_out: 0 }));
    assert_eq!(r.pixels, before);
}

#[test]
fn white_background_with_dark_glyph() {
    let mut bg = Widget::new();
    bg.fill = Some("ffffff".to_string());
    let mut text = Widget::new();
    text.spans.push(Texts::new("A".to_string()));
    let out = layout(&vec![bg, text], frame(0, 0, 100, 100), &style(), ctx(100)).unwrap();
    assert_eq!(out.len(), 2);
    assert_eq!(out[1].runs[0].color, BLACK);
    let glyph = Shaped {
        lines: vec![LineMetrics { width: 6, height: 4 }],
        units: vec![unit(2, 3, BLACK), unit(3, 3, Rgba { r: 0, g: 0, b: 0, a: 128 })],
    };
    let mut r = Raster::new(100, 100);
    let res = render(&mut r, &out, &vec![no_text(), glyph], true);
    assert_eq!(res, Ok(ResultDrawText { count_pixel_out: 0 }));
    assert_eq!(r.get_pixel(50, 50), WHITE);
    assert_eq!(r.get_pixel(0, 0), WHITE);
    assert_eq!(r.get_pixel(2, 3), BLACK);
    let soft = r.get_pixel(3, 3);
    assert!(soft.r < 255 && soft.g < 255 && soft.b < 255);
    assert_eq!(soft.a, 255);
}

#[test]
fn malformed_widget_color_without_text_is_an_error() {
    let mut w = Widget::new();
    w.color = Some("12zz56".to_string());
    let r = layout(&vec![w], frame(0, 0, 100, 100), &style(), ctx(100));
    assert_eq!(r.unwrap_err(), RenderError::InvalidColor);
}

#[test]
fn malformed_default_color_is_an_error() {
    let bad = Style { font: 0, font_size: 240, color: "black".to_string() };
    let r = layout(&vec![Widget::new()], frame(0, 0, 100, 100), &bad, ctx(100));
    assert_eq!(r.unwrap_err(), RenderError::InvalidColor);
    let mut own = Widget::new();
    own.color = Some("000000".to_string());
    assert!(layout(&vec![own], frame(0, 0, 100, 100), &bad, ctx(100)).is_ok());
}

#[test]
fn layout_until_error_keeps_the_widgets_before_the_error() {
    let mut a = Widget::new();
    a.fill = Some("000001".to_string());
    let mut bad = Widget::new();
    bad.fill = Some("nope".to_string());
    a.children.push(bad);
    let mut b = Widget::new();
    b.fill = Some("000003".to_string());
    let (placed, err) = layout_until_error(&vec![a, b], frame(0, 0, 10, 10), &style(), ctx(10));
    assert_eq!(err, Some(RenderError::InvalidColor));
    assert_eq!(placed.len(), 1);
    assert_eq!(placed[0].fill.unwrap().b, 1);
    let (all, none) = layout_until_error(&vec![Widget::new(), Widget::new()], frame(0, 0, 10, 10), &style(), ctx(10));
    assert_eq!(none, None);
    assert_eq!(all.len(), 2);
}

#[test]
fn overflow_abort_keeps_earlier_output_and_its_fill_only() {
    let red = Rgba { r: 255, g: 0, b: 0, a: 255 };
    let mut r = Raster::new(20, 20);
    let first = placed(frame(0, 0, 20, 20), None, VAlign::Top);
    let failing = placed(frame(10, 10, 5, 5), Some(red), VAlign::Top);
    let after = placed(frame(0, 0, 20, 20), Some(WHITE), VAlign::Top);
    let drawn = Shaped { lines: vec![LineMetrics { width: 1, height: 1 }], units: vec![unit(1, 1, BLACK)] };
    let tall = Shaped { lines: vec![LineMetrics { width: 1, height: 6 }], units: vec![unit(0, 0, BLACK)] };
    let res = render(&mut r, &vec![first, failing, after], &vec![drawn, tall, no_text()], true);
    assert!(matches!(res, Err(RenderError::TextOverflow { shaped_height: 6, box_height: 5, .. })));
    assert_eq!(r.get_pixel(1, 1), BLACK);
    assert_eq!(r.get_pixel(10, 10), red);
    assert_eq!(r.get_pixel(14, 14), red);
    assert_eq!(r.get_pixel(0, 0), CLEAR);
    assert_eq!(r.pixels.iter().filter(|p| **p == BLACK).count(), 1);
    assert_eq!(r.pixels.iter().filter(|p| **p == WHITE).count(), 0);
}
