//! The rendering pass: fold a stream of decoded polar points into fat arcs
//! on the canvas, and the optional spiral erase pattern drawn beforehand.

use crate::arc::spec_discretize;
use crate::canvas::{BlendMode, Canvas};
use crate::fixed::{ONE, TWO_PI_FP};
use crate::render::{draw_fat_arc, spec_arc_chain, spec_draw_segments};
use crate::tr::{tr_ok, TR};
use vstd::prelude::*;

verus! {

/// A point record that could not be decoded.
#[derive(Clone, Copy, Debug, PartialEq, Eq, Structural)]
pub struct DecodeError;

/// Why a rendering run stops.
#[derive(Clone, Copy, Debug, PartialEq, Eq, Structural)]
pub enum RenderError {
    /// No record was available to establish a starting point.
    EmptyInput,
    /// A record failed to decode; the run aborts at that record, keeping
    /// whatever was already rasterized.
    MalformedRecord,
}

/// The canvas after the arcs of the first `k` records have been rendered:
/// every consecutive pair of decoded points within that prefix contributes
/// one fat arc, in input order.
pub open spec fn spec_path(
    c: Seq<u8>,
    w: u32,
    h: u32,
    records: Seq<Result<TR, DecodeError>>,
    sand_color: u8,
    table_color: u8,
    mode: BlendMode,
    k: nat,
) -> Seq<u8>
    decreases k,
{
    if k <= 1 {
        c
    } else {
        let prev = spec_path(c, w, h, records, sand_color, table_color, mode, (k - 1) as nat);
        if records[k - 1] is Ok && records[k - 2] is Ok {
            let segs = spec_discretize(w, h, records[k - 2]->Ok_0, records[k - 1]->Ok_0);
            spec_draw_segments(prev, w, h, segs, sand_color, table_color, mode, segs.len())
        } else {
            prev
        }
    }
}

/// Render a decoded point stream: the first record establishes the starting
/// point, and every following record extends the path by one fat arc.
///
/// Zero records yield `EmptyInput`; a record that failed to decode yields
/// `MalformedRecord`; otherwise the count of arcs drawn is returned, which
/// is one less than the record count — in particular a single record draws
/// nothing and leaves the canvas untouched.
pub fn render_path(
    canvas: &mut Canvas,
    records: &Vec<Result<TR, DecodeError>>,
    sand_color: u8,
    table_color: u8,
    mode: BlendMode,
) -> (r: Result<u32, RenderError>)
    requires
        old(canvas).wf(),
        records@.len() <= 0xFFFF_FFFF,
        forall|i: int|
            0 <= i < records@.len() ==> ((#[trigger] records@[i]) matches Ok(p) ==> tr_ok(p)),
    ensures
        final(canvas).wf(),
        final(canvas).width == old(canvas).width,
        final(canvas).height == old(canvas).height,
        r == Err::<u32, RenderError>(RenderError::EmptyInput) <==> records@.len() == 0,
        r == Err::<u32, RenderError>(RenderError::MalformedRecord) <==> (records@.len() > 0
            && exists|i: int| 0 <= i < records@.len() && (#[trigger] records@[i]) is Err),
        r matches Ok(n) ==> n == records@.len() - 1,
        records@.len() == 1 && records@[0] is Ok ==> final(canvas)@ == old(canvas)@,
        r matches Ok(n) ==> final(canvas)@ == spec_path(
            old(canvas)@,
            old(canvas).width,
            old(canvas).height,
            records@,
            sand_color,
            table_color,
            mode,
            records@.len(),
        ),
        r == Err::<u32, RenderError>(RenderError::MalformedRecord) ==> exists|fb: int|
            0 <= fb < records@.len() && (#[trigger] records@[fb]) is Err && (forall|j: int|
                0 <= j < fb ==> records@[j] is Ok) && final(canvas)@ == spec_path(
                old(canvas)@,
                old(canvas).width,
                old(canvas).height,
                records@,
                sand_color,
                table_color,
                mode,
                fb as nat,
            ),
{
    if records.len() == 0 {
        return Err(RenderError::EmptyInput);
    }
    let mut last: TR;
    match records[0] {
        Ok(p) => {
            last = p;
        },
        Err(_) => {
            return Err(RenderError::MalformedRecord);
        },
    }
    let mut count: u32 = 0;
    let mut i: usize = 1;
    while i < records.len()
        invariant
            1 <= i <= records@.len(),
            records@.len() <= 0xFFFF_FFFF,
            count == i - 1,
            canvas.wf(),
            canvas.width == old(canvas).width,
            canvas.height == old(canvas).height,
            forall|j: int| 0 <= j < i ==> (#[trigger] records@[j]) is Ok,
            records@[i - 1] == Ok::<TR, DecodeError>(last),
            tr_ok(last),
            forall|j: int|
                0 <= j < records@.len() ==> ((#[trigger] records@[j]) matches Ok(p) ==> tr_ok(p)),
            canvas@ == spec_path(
                old(canvas)@,
                old(canvas).width,
                old(canvas).height,
                records@,
                sand_color,
                table_color,
                mode,
                i as nat,
            ),
        decreases records@.len() - i,
    {
        match records[i] {
            Ok(point) => {
                proof {
                    assert(records@[i as int] == Ok::<TR, DecodeError>(point));
                }
                draw_fat_arc(canvas, last, point, sand_color, table_color, mode);
                last = point;
                count = count + 1;
                i = i + 1;
            },
            Err(_) => {
                proof {
                    assert(0 <= i < records@.len() && records@[i as int] is Err && (forall|j: int|
                        0 <= j < i ==> records@[j] is Ok));
                }
                return Err(RenderError::MalformedRecord);
            },
        }
    }
    Ok(count)
}

/// The polar point at which the erase spiral starts: the table's center.
pub open spec fn spiral_start() -> TR {
    TR { t: 0, r: 0 }
}

/// The polar point at which the erase spiral ends: the rim, a hundred
/// windings later.
pub open spec fn spiral_end() -> TR {
    TR { t: (100 * TWO_PI_FP) as i64, r: ONE }
}

/// Pre-draw a neutral erase texture: one fat arc spiralling from the center
/// of the table out to its rim.
pub fn spiral_erase(canvas: &mut Canvas, sand_color: u8, table_color: u8, mode: BlendMode)
    requires
        old(canvas).wf(),
    ensures
        final(canvas).wf(),
        final(canvas).width == old(canvas).width,
        final(canvas).height == old(canvas).height,
        spec_arc_chain(
            spec_discretize(old(canvas).width, old(canvas).height, spiral_start(), spiral_end()),
            old(canvas).width,
            old(canvas).height,
            spiral_start(),
            spiral_end(),
        ),
        final(canvas)@ == spec_draw_segments(
            old(canvas)@,
            old(canvas).width,
            old(canvas).height,
            spec_discretize(old(canvas).width, old(canvas).height, spiral_start(), spiral_end()),
            sand_color,
            table_color,
            mode,
            spec_discretize(
                old(canvas).width,
                old(canvas).height,
                spiral_start(),
                spiral_end(),
            ).len(),
        ),
{
    let start = TR { t: 0, r: 0 };
    let end = TR { t: 100 * TWO_PI_FP, r: ONE };
    draw_fat_arc(canvas, start, end, sand_color, table_color, mode);
    proof {
        assert(start == spiral_start());
        assert(end == spiral_end());
    }
}

} // verus!
