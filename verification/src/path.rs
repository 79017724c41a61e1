use vstd::prelude::*;

verus! {

/// A point in fixed-point units of 1/64 pixel.
#[derive(Clone, Copy, Debug, PartialEq, Eq, Structural)]
pub struct PointFx {
    pub x: i32,
    pub y: i32,
}

/// One path segment, coordinates in 1/64-pixel units.
#[derive(Clone, Copy, Debug, PartialEq, Eq, Structural)]
pub enum Segment {
    Move(PointFx),
    Line(PointFx),
    /// Control point, then end point.
    Quad(PointFx, PointFx),
    /// Two control points, then end point.
    Cubic(PointFx, PointFx, PointFx),
    Close,
}

/// An ordered, reusable list of segments.
pub struct PathDef {
    pub segments: Vec<Segment>,
}

/// One drawn shape: a path reference, its own fixed-point offset, a packed
/// ARGB color, and fill-or-stroke styling.
#[derive(Clone, Copy, Debug, PartialEq, Eq, Structural)]
pub struct Shape {
    pub path_index: usize,
    pub x: i32,
    pub y: i32,
    pub argb: u32,
    pub fill: bool,
    /// Stroke width in 1/64-pixel units.
    pub line_width: i32,
}

/// One drawing call for the 2D backend. Path coordinates are in units of
/// 1/192 pixel: fine enough for the native 1/64-pixel inputs and for the
/// exact thirds that quadratic-to-cubic elevation produces. Color channels
/// are straight-alpha bytes; the backend normalizes them to `[0, 1]` by
/// dividing by 255.
#[derive(Clone, Copy, Debug, PartialEq, Eq, Structural)]
#[allow(inconsistent_fields)]
pub enum DrawCmd {
    /// Open an isolated graphics-state scope.
    Save,
    /// Close the scope opened by the matching `Save`.
    Restore,
    /// Pre-translate the shape by its own offset, 1/64-pixel units.
    Translate { x: i32, y: i32 },
    MoveTo { x: i64, y: i64 },
    LineTo { x: i64, y: i64 },
    CurveTo { x1: i64, y1: i64, x2: i64, y2: i64, x3: i64, y3: i64 },
    ClosePath,
    /// Fill the current path with nonzero winding.
    Fill { a: u8, r: u8, g: u8, b: u8 },
    /// Stroke with square caps and round joins; width in 1/64-pixel units.
    Stroke { a: u8, r: u8, g: u8, b: u8, width: i32 },
}

/// The pen state while a path is reconstructed: the current point and the
/// start of the current subpath (what a `Close` returns the pen to), both
/// in 1/64-pixel units.
pub ghost struct PenState {
    pub cur_x: int,
    pub cur_y: int,
    pub start_x: int,
    pub start_y: int,
}

/// The pen before any segment ran: the backend reports the origin.
pub open spec fn pen_init() -> PenState {
    PenState { cur_x: 0, cur_y: 0, start_x: 0, start_y: 0 }
}

pub open spec fn argb_a(argb: u32) -> u8 {
    ((argb >> 24) & 0xFF) as u8
}

pub open spec fn argb_r(argb: u32) -> u8 {
    ((argb >> 16) & 0xFF) as u8
}

pub open spec fn argb_g(argb: u32) -> u8 {
    ((argb >> 8) & 0xFF) as u8
}

pub open spec fn argb_b(argb: u32) -> u8 {
    (argb & 0xFF) as u8
}

/// The single drawing command a segment emits, given the pen state.
/// A quadratic segment is elevated to its exactly equivalent cubic:
/// with current point `P0`, control `C` and end `P` (1/64 units), the
/// cubic controls are `c1 = P0 + (2/3)(C - P0)` and `c2 = P + (2/3)(C - P)`,
/// which in 1/192 units are the integers `P0 + 2C` and `P + 2C`.
pub open spec fn seg_cmd(seg: Segment, pen: PenState) -> DrawCmd {
    match seg {
        Segment::Move(p) => DrawCmd::MoveTo { x: (3 * p.x) as i64, y: (3 * p.y) as i64 },
        Segment::Line(p) => DrawCmd::LineTo { x: (3 * p.x) as i64, y: (3 * p.y) as i64 },
        Segment::Quad(c, p) => DrawCmd::CurveTo {
            x1: (pen.cur_x + 2 * c.x) as i64,
            y1: (pen.cur_y + 2 * c.y) as i64,
            x2: (p.x + 2 * c.x) as i64,
            y2: (p.y + 2 * c.y) as i64,
            x3: (3 * p.x) as i64,
            y3: (3 * p.y) as i64,
        },
        Segment::Cubic(c1, c2, p) => DrawCmd::CurveTo {
            x1: (3 * c1.x) as i64,
            y1: (3 * c1.y) as i64,
            x2: (3 * c2.x) as i64,
            y2: (3 * c2.y) as i64,
            x3: (3 * p.x) as i64,
            y3: (3 * p.y) as i64,
        },
        Segment::Close => DrawCmd::ClosePath,
    }
}

/// How a segment moves the pen: `Move` starts a new subpath, drawing
/// segments advance the current point, `Close` returns to the subpath
/// start.
pub open spec fn seg_step(seg: Segment, pen: PenState) -> PenState {
    match seg {
        Segment::Move(p) => PenState {
            cur_x: p.x as int,
            cur_y: p.y as int,
            start_x: p.x as int,
            start_y: p.y as int,
        },
        Segment::Line(p) => PenState { cur_x: p.x as int, cur_y: p.y as int, ..pen },
        Segment::Quad(_, p) => PenState { cur_x: p.x as int, cur_y: p.y as int, ..pen },
        Segment::Cubic(_, _, p) => PenState { cur_x: p.x as int, cur_y: p.y as int, ..pen },
        Segment::Close => PenState { cur_x: pen.start_x, cur_y: pen.start_y, ..pen },
    }
}

/// The commands a whole segment list emits, threading the pen state.
pub open spec fn path_cmds(segs: Seq<Segment>, pen: PenState) -> Seq<DrawCmd>
    decreases segs.len(),
{
    if segs.len() == 0 {
        Seq::empty()
    } else {
        seq![seg_cmd(segs[0], pen)] + path_cmds(segs.drop_first(), seg_step(segs[0], pen))
    }
}

/// Every shape reference points into the path table.
pub open spec fn shapes_wf(paths: Seq<PathDef>, shapes: Seq<Shape>) -> bool {
    forall|i: int| 0 <= i < shapes.len() ==> (#[trigger] shapes[i]).path_index < paths.len()
}

/// The command scope one shape emits: save, pre-translate by the shape's
/// own offset, reconstruct its path, fill or stroke it in its color,
/// restore.
pub open spec fn shape_cmds(paths: Seq<PathDef>, sh: Shape) -> Seq<DrawCmd>
    recommends
        sh.path_index < paths.len(),
{
    seq![DrawCmd::Save, DrawCmd::Translate { x: sh.x, y: sh.y }]
        + path_cmds(paths[sh.path_index as int].segments@, pen_init())
        + seq![
        if sh.fill {
            DrawCmd::Fill {
                a: argb_a(sh.argb),
                r: argb_r(sh.argb),
                g: argb_g(sh.argb),
                b: argb_b(sh.argb),
            }
        } else {
            DrawCmd::Stroke {
                a: argb_a(sh.argb),
                r: argb_r(sh.argb),
                g: argb_g(sh.argb),
                b: argb_b(sh.argb),
                width: sh.line_width,
            }
        },
        DrawCmd::Restore,
    ]
}

/// The commands of a whole shape list, in order.
pub open spec fn all_shape_cmds(paths: Seq<PathDef>, shapes: Seq<Shape>) -> Seq<DrawCmd>
    decreases shapes.len(),
{
    if shapes.len() == 0 {
        Seq::empty()
    } else {
        all_shape_cmds(paths, shapes.drop_last()) + shape_cmds(paths, shapes.last())
    }
}

/// Law: the quadratic-to-cubic elevation is exact. In 1/192-pixel units
/// the emitted first control point `c1` satisfies `c1 - P0 = (2/3)(C - P0)`
/// and the second satisfies `c2 - P = (2/3)(C - P)`, with no rounding.
pub proof fn lemma_quad_elevation_exact(p0: int, c: int, p: int)
    ensures
        3 * ((p0 + 2 * c) - 3 * p0) == 2 * (3 * c - 3 * p0),
        3 * ((p + 2 * c) - 3 * p) == 2 * (3 * c - 3 * p),
{
}

/// Extracts the straight-alpha color channels of a packed ARGB word.
pub fn argb_channels(argb: u32) -> (r: (u8, u8, u8, u8))
    ensures
        r.0 == argb_a(argb),
        r.1 == argb_r(argb),
        r.2 == argb_g(argb),
        r.3 == argb_b(argb),
{
    let a = ((argb >> 24) & 0xFF) as u8;
    let rr = ((argb >> 16) & 0xFF) as u8;
    let g = ((argb >> 8) & 0xFF) as u8;
    let b = (argb & 0xFF) as u8;
    (a, rr, g, b)
}

/// Checks that every shape's path reference is inside the path table.
pub fn shapes_valid(paths: &Vec<PathDef>, shapes: &Vec<Shape>) -> (r: bool)
    ensures
        r == shapes_wf(paths@, shapes@),
{
    let mut i: usize = 0;
    while i < shapes.len()
        invariant
            i <= shapes@.len(),
            forall|j: int| 0 <= j < i ==> (#[trigger] shapes@[j]).path_index < paths@.len(),
        decreases shapes@.len() - i,
    {
        if shapes[i].path_index >= paths.len() {
            return false;
        }
        i += 1;
    }
    true
}

/// Reconstructs the drawing commands for every shape of one transition,
/// in shape order: exactly `all_shape_cmds` of the inputs.
pub fn render_shapes(paths: &Vec<PathDef>, shapes: &Vec<Shape>) -> (r: Vec<DrawCmd>)
    requires
        shapes_wf(paths@, shapes@),
    ensures
        r@ == all_shape_cmds(paths@, shapes@),
{
    let mut out: Vec<DrawCmd> = Vec::new();
    let mut i: usize = 0;
    proof {
        assert(out@ =~= all_shape_cmds(paths@, shapes@.take(0)));
    }
    while i < shapes.len()
        invariant
            i <= shapes@.len(),
            shapes_wf(paths@, shapes@),
            out@ == all_shape_cmds(paths@, shapes@.take(i as int)),
        decreases shapes@.len() - i,
    {
        let sh = &shapes[i];
        let ghost before = out@;
        out.push(DrawCmd::Save);
        out.push(DrawCmd::Translate { x: sh.x, y: sh.y });
        let path = &paths[sh.path_index];
        let ghost segs = path.segments@;
        let ghost mid0 = out@;
        let ghost mut done: Seq<DrawCmd> = Seq::empty();
        let mut cur_x: i32 = 0;
        let mut cur_y: i32 = 0;
        let mut start_x: i32 = 0;
        let mut start_y: i32 = 0;
        let mut j: usize = 0;
        proof {
            assert(out@ =~= mid0 + done);
            assert(segs.skip(0) =~= segs);
        }
        while j < path.segments.len()
            invariant
                j <= segs.len(),
                segs == path.segments@,
                out@ == mid0 + done,
                path_cmds(segs, pen_init()) == done + path_cmds(
                    segs.skip(j as int),
                    PenState {
                        cur_x: cur_x as int,
                        cur_y: cur_y as int,
                        start_x: start_x as int,
                        start_y: start_y as int,
                    },
                ),
            decreases segs.len() - j,
        {
            let ghost pen = PenState {
                cur_x: cur_x as int,
                cur_y: cur_y as int,
                start_x: start_x as int,
                start_y: start_y as int,
            };
            let seg = path.segments[j];
            match seg {
                Segment::Move(p) => {
                    out.push(DrawCmd::MoveTo { x: 3 * (p.x as i64), y: 3 * (p.y as i64) });
                    cur_x = p.x;
                    cur_y = p.y;
                    start_x = p.x;
                    start_y = p.y;
                },
                Segment::Line(p) => {
                    out.push(DrawCmd::LineTo { x: 3 * (p.x as i64), y: 3 * (p.y as i64) });
                    cur_x = p.x;
                    cur_y = p.y;
                },
                Segment::Quad(c, p) => {
                    out.push(DrawCmd::CurveTo {
                        x1: (cur_x as i64) + 2 * (c.x as i64),
                        y1: (cur_y as i64) + 2 * (c.y as i64),
                        x2: (p.x as i64) + 2 * (c.x as i64),
                        y2: (p.y as i64) + 2 * (c.y as i64),
                        x3: 3 * (p.x as i64),
                        y3: 3 * (p.y as i64),
                    });
                    cur_x = p.x;
                    cur_y = p.y;
                },
                Segment::Cubic(c1, c2, p) => {
                    out.push(DrawCmd::CurveTo {
                        x1: 3 * (c1.x as i64),
                        y1: 3 * (c1.y as i64),
                        x2: 3 * (c2.x as i64),
                        y2: 3 * (c2.y as i64),
                        x3: 3 * (p.x as i64),
                        y3: 3 * (p.y as i64),
                    });
                    cur_x = p.x;
                    cur_y = p.y;
                },
                Segment::Close => {
                    out.push(DrawCmd::ClosePath);
                    cur_x = start_x;
                    cur_y = start_y;
                },
            }
            j += 1;
            proof {
                let pen_next = PenState {
                    cur_x: cur_x as int,
                    cur_y: cur_y as int,
                    start_x: start_x as int,
                    start_y: start_y as int,
                };
                assert(segs.skip(j - 1)[0] == segs[j - 1]);
                assert(segs.skip(j - 1).drop_first() =~= segs.skip(j as int));
                assert(seg_cmd(segs[j - 1], pen) == out@.last());
                assert(seg_step(segs[j - 1], pen) == pen_next);
                assert(path_cmds(segs.skip(j - 1), pen) == seq![seg_cmd(segs[j - 1], pen)]
                    + path_cmds(segs.skip(j as int), pen_next));
                done = done.push(out@.last());
                assert(out@ =~= mid0 + done);
                assert(done + path_cmds(segs.skip(j as int), pen_next)
                    =~= done.drop_last() + path_cmds(segs.skip(j - 1), pen));
            }
        }
        let ghost pen_end = PenState {
            cur_x: cur_x as int,
            cur_y: cur_y as int,
            start_x: start_x as int,
            start_y: start_y as int,
        };
        let ch = argb_channels(sh.argb);
        if sh.fill {
            out.push(DrawCmd::Fill { a: ch.0, r: ch.1, g: ch.2, b: ch.3 });
        } else {
            out.push(DrawCmd::Stroke { a: ch.0, r: ch.1, g: ch.2, b: ch.3, width: sh.line_width });
        }
        out.push(DrawCmd::Restore);
        i += 1;
        proof {
            assert(segs.skip(segs.len() as int) =~= Seq::<Segment>::empty());
            assert(path_cmds(segs.skip(segs.len() as int), pen_end) =~= Seq::<DrawCmd>::empty());
            assert(done =~= path_cmds(segs, pen_init()));
            assert(shapes@.take(i as int).drop_last() =~= shapes@.take(i - 1));
            assert(shapes@.take(i as int).last() == shapes@[i - 1]);
            assert(all_shape_cmds(paths@, shapes@.take(i as int))
                == all_shape_cmds(paths@, shapes@.take(i - 1))
                    + shape_cmds(paths@, shapes@[i - 1]));
            assert(out@ =~= before + shape_cmds(paths@, shapes@[i - 1]));
        }
    }
    proof {
        assert(shapes@.take(shapes@.len() as int) =~= shapes@);
    }
    out
}

} // verus!
