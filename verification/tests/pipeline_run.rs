//! The rendering pass end to end: error handling for the record stream,
//! the erase spiral, and the full two-arc scenario.

use sis_draw::canvas::{BlendMode, Canvas};
use sis_draw::fixed::ONE;
use sis_draw::pipeline::{render_path, spiral_erase, DecodeError, RenderError};
use sis_draw::tr::TR;

#[test]
fn zero_records_is_empty_input() {
    let mut cv = Canvas::new(50, 50, 0);
    let records: Vec<Result<TR, DecodeError>> = Vec::new();
    let r = render_path(&mut cv, &records, 255, 140, BlendMode::Interpolate);
    assert_eq!(r, Err(RenderError::EmptyInput));
}

#[test]
fn one_record_draws_nothing_without_error() {
    let mut cv = Canvas::new(50, 50, 9);
    let records = vec![Ok(TR { t: 0, r: ONE / 2 })];
    let r = render_path(&mut cv, &records, 255, 140, BlendMode::Interpolate);
    assert_eq!(r, Ok(0));
    for y in 0..50u32 {
        for x in 0..50u32 {
            assert_eq!(cv.get(x, y), 9);
        }
    }
}

#[test]
fn malformed_record_aborts_the_run() {
    let mut cv = Canvas::new(50, 50, 0);
    let records = vec![
        Ok(TR { t: 0, r: 0 }),
        Err(DecodeError),
        Ok(TR { t: 0, r: ONE }),
    ];
    let r = render_path(&mut cv, &records, 255, 140, BlendMode::Interpolate);
    assert_eq!(r, Err(RenderError::MalformedRecord));
}

#[test]
fn malformed_first_record_aborts_before_drawing() {
    let mut cv = Canvas::new(50, 50, 3);
    let records: Vec<Result<TR, DecodeError>> = vec![Err(DecodeError)];
    let r = render_path(&mut cv, &records, 255, 140, BlendMode::Interpolate);
    assert_eq!(r, Err(RenderError::MalformedRecord));
    for y in 0..50u32 {
        for x in 0..50u32 {
            assert_eq!(cv.get(x, y), 3);
        }
    }
}

#[test]
fn arc_count_is_one_less_than_record_count() {
    let mut cv = Canvas::new(80, 80, 0);
    let records = vec![
        Ok(TR { t: 0, r: 0 }),
        Ok(TR { t: 0, r: ONE / 2 }),
        Ok(TR { t: 102944, r: ONE / 2 }),
        Ok(TR { t: 205887, r: ONE }),
    ];
    let r = render_path(&mut cv, &records, 255, 140, BlendMode::Interpolate);
    assert_eq!(r, Ok(3));
}

#[test]
fn spiral_erase_paints_the_table() {
    let mut cv = Canvas::new(60, 60, 220);
    spiral_erase(&mut cv, 255, 140, BlendMode::Interpolate);
    let mut touched = 0u32;
    for y in 0..60u32 {
        for x in 0..60u32 {
            if cv.get(x, y) != 220 {
                touched += 1;
            }
        }
    }
    assert!(touched > 0);
}

#[test]
fn three_point_scenario_draws_two_strokes_in_bounds() {
    // (0,0) -> (0,1) -> (pi,1) on a 100x100 canvas: a radial line from the
    // center to the rim, then a half-circle along the rim; background 0,
    // edge 128, core 255
    let mut cv = Canvas::new(100, 100, 0);
    let records = vec![
        Ok(TR { t: 0, r: 0 }),
        Ok(TR { t: 0, r: ONE }),
        Ok(TR { t: 205887, r: ONE }),
    ];
    let r = render_path(&mut cv, &records, 128, 255, BlendMode::Interpolate);
    assert_eq!(r, Ok(2));
    let mut painted = 0u32;
    for y in 0..100u32 {
        for x in 0..100u32 {
            if cv.get(x, y) != 0 {
                painted += 1;
            }
        }
    }
    // a non-empty set of painted pixels, all inside the canvas by
    // construction of the buffer
    assert!(painted > 0);
    // the radial stroke runs right from the center along the x axis
    assert_eq!(cv.get(70, 50), 255);
    assert_eq!(cv.get(96, 50), 250);
    // the rim arc comes back around to the left edge
    assert_eq!(cv.get(2, 50), 127);
    // far from both strokes the background is untouched
    assert_eq!(cv.get(10, 10), 0);
}
