//! The antialiased rasterizer: blending, gradients, clipping, the
//! axis-aligned round-trip, and replace-mode idempotence.

use sis_draw::canvas::{blend, BlendMode, Canvas};
use sis_draw::fixed::ONE;
use sis_draw::render::{
    color_at, draw_fat_arc, draw_gradient_antialiased_line_segment_mut, ColorSpec,
};
use sis_draw::tr::TR;
use sis_draw::xy::PixelPt;

#[test]
fn blend_interpolates_by_coverage() {
    assert_eq!(blend(BlendMode::Interpolate, 255, 0, ONE), 255);
    assert_eq!(blend(BlendMode::Interpolate, 255, 0, 0), 0);
    assert_eq!(blend(BlendMode::Interpolate, 255, 0, ONE / 2), 127);
    assert_eq!(blend(BlendMode::Interpolate, 0, 200, ONE), 0);
    assert_eq!(blend(BlendMode::Replace, 9, 200, ONE), 9);
    assert_eq!(blend(BlendMode::Replace, 9, 200, 1), 9);
}

#[test]
fn gradient_color_runs_between_its_ends() {
    let g = ColorSpec::Gradient(10, 250);
    assert_eq!(color_at(g, 0), 10);
    assert_eq!(color_at(g, ONE), 250);
    let mid = color_at(g, ONE / 2);
    assert!(10 < mid && mid < 250);
    assert_eq!(color_at(ColorSpec::Constant(77), ONE / 3), 77);
}

#[test]
fn plot_clips_out_of_bounds_writes() {
    let mut cv = Canvas::new(10, 10, 0);
    cv.plot(BlendMode::Replace, -1, 5, 200, ONE);
    cv.plot(BlendMode::Replace, 10, 5, 200, ONE);
    cv.plot(BlendMode::Replace, 5, -1, 200, ONE);
    cv.plot(BlendMode::Replace, 5, 10, 200, ONE);
    for y in 0..10u32 {
        for x in 0..10u32 {
            assert_eq!(cv.get(x, y), 0);
        }
    }
    cv.plot(BlendMode::Replace, 5, 5, 200, ONE);
    assert_eq!(cv.get(5, 5), 200);
}

#[test]
fn horizontal_integer_segment_touches_exactly_its_pixels() {
    // a horizontal run of integer length 7 between integer-aligned
    // coordinates: full coverage on its own row, no bleed anywhere else
    let mut cv = Canvas::new(20, 20, 0);
    let a = PixelPt { x: 2 * ONE, y: 5 * ONE };
    let b = PixelPt { x: 9 * ONE, y: 5 * ONE };
    draw_gradient_antialiased_line_segment_mut(
        &mut cv,
        a,
        b,
        ColorSpec::Constant(200),
        BlendMode::Replace,
    );
    for y in 0..20u32 {
        for x in 0..20u32 {
            let expect = if y == 5 && 2 <= x && x <= 9 { 200 } else { 0 };
            assert_eq!(cv.get(x, y), expect);
        }
    }
}

#[test]
fn vertical_integer_segment_touches_exactly_its_pixels() {
    let mut cv = Canvas::new(20, 20, 0);
    let a = PixelPt { x: 4 * ONE, y: 3 * ONE };
    let b = PixelPt { x: 4 * ONE, y: 11 * ONE };
    draw_gradient_antialiased_line_segment_mut(
        &mut cv,
        a,
        b,
        ColorSpec::Constant(150),
        BlendMode::Replace,
    );
    for y in 0..20u32 {
        for x in 0..20u32 {
            let expect = if x == 4 && 3 <= y && y <= 11 { 150 } else { 0 };
            assert_eq!(cv.get(x, y), expect);
        }
    }
}

#[test]
fn interpolate_full_coverage_equals_replace() {
    let mut cv1 = Canvas::new(20, 20, 30);
    let mut cv2 = Canvas::new(20, 20, 30);
    let a = PixelPt { x: 2 * ONE, y: 7 * ONE };
    let b = PixelPt { x: 13 * ONE, y: 7 * ONE };
    draw_gradient_antialiased_line_segment_mut(
        &mut cv1,
        a,
        b,
        ColorSpec::Constant(99),
        BlendMode::Interpolate,
    );
    draw_gradient_antialiased_line_segment_mut(
        &mut cv2,
        a,
        b,
        ColorSpec::Constant(99),
        BlendMode::Replace,
    );
    for y in 0..20u32 {
        for x in 0..20u32 {
            assert_eq!(cv1.get(x, y), cv2.get(x, y));
        }
    }
}

#[test]
fn gradient_stroke_runs_between_its_colors() {
    let mut cv = Canvas::new(20, 20, 0);
    let a = PixelPt { x: 2 * ONE, y: 5 * ONE };
    let b = PixelPt { x: 9 * ONE, y: 5 * ONE };
    draw_gradient_antialiased_line_segment_mut(
        &mut cv,
        a,
        b,
        ColorSpec::Gradient(50, 200),
        BlendMode::Replace,
    );
    assert_eq!(cv.get(2, 5), 50);
    assert_eq!(cv.get(9, 5), 200);
    let mut prev = 0u8;
    for x in 2..=9u32 {
        let c = cv.get(x, 5);
        assert!(c >= prev);
        prev = c;
    }
}

#[test]
fn one_pixel_canvas_survives_a_fat_arc() {
    let mut cv = Canvas::new(1, 1, 4);
    draw_fat_arc(
        &mut cv,
        TR { t: 0, r: 0 },
        TR { t: 0, r: ONE },
        128,
        255,
        BlendMode::Replace,
    );
    // the stroke passes through the single pixel of the canvas
    assert_ne!(cv.get(0, 0), 4);
}

#[test]
fn replace_fat_arc_is_idempotent() {
    // drawing the same arc twice with the replace blend mutates the same
    // pixel set in the same way as drawing it once
    let start = TR { t: 0, r: 0 };
    let end = TR { t: 205887, r: ONE };
    let mut cv = Canvas::new(60, 60, 7);
    draw_fat_arc(&mut cv, start, end, 100, 200, BlendMode::Replace);
    let mut snapshot: Vec<u8> = Vec::new();
    for y in 0..60u32 {
        for x in 0..60u32 {
            snapshot.push(cv.get(x, y));
        }
    }
    draw_fat_arc(&mut cv, start, end, 100, 200, BlendMode::Replace);
    let mut i = 0usize;
    for y in 0..60u32 {
        for x in 0..60u32 {
            assert_eq!(cv.get(x, y), snapshot[i]);
            i += 1;
        }
    }
}

#[test]
fn fat_arc_paints_something() {
    let mut cv = Canvas::new(60, 60, 0);
    draw_fat_arc(
        &mut cv,
        TR { t: 0, r: 0 },
        TR { t: 0, r: ONE },
        128,
        255,
        BlendMode::Interpolate,
    );
    let mut painted = 0u32;
    for y in 0..60u32 {
        for x in 0..60u32 {
            if cv.get(x, y) != 0 {
                painted += 1;
            }
        }
    }
    assert!(painted > 0);
}
