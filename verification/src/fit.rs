use vstd::prelude::*;

verus! {

/// Scale policy applied when compositing a scene authored at a design
/// resolution onto the actual frame.
#[derive(Clone, Copy, Debug, PartialEq, Eq, Structural)]
pub enum ScaleType {
    /// Identity: the scene is already authored at frame resolution.
    Unscaled,
    /// Aspect-preserving scale with the title-safe-area rule.
    Uniform,
    /// Independent per-axis scale; the aspect ratio is not preserved.
    NonUniform,
}

impl Default for ScaleType {
    /// The policy used when a configuration names none.
    fn default() -> (r: Self)
        ensures
            r == ScaleType::Uniform,
    {
        ScaleType::Uniform
    }
}

/// Width : height of the broadcast title-safe area (11 : 10).
pub const SAFE_AR_WIDTH: u64 = 11;

pub const SAFE_AR_HEIGHT: u64 = 10;

/// An exact rational `num / den` with `den > 0`. The fit transform is
/// computed in exact rational arithmetic; whoever drives the drawing
/// backend converts to its floating point at that boundary.
#[derive(Clone, Copy, Debug)]
pub struct Frac {
    pub num: i128,
    pub den: i128,
}

/// The rational `q` holds the value `n / d`, for a positive denominator.
pub open spec fn frac_is(q: Frac, n: int, d: int) -> bool {
    q.den > 0 && d > 0 && q.num * d == n * q.den
}

/// Scale-then-translate transform: scale by `(sx, sy)`, then translate by
/// `(tx, ty)` expressed in pre-scale user-space units.
pub struct FitTransform {
    pub sx: Frac,
    pub sy: Frac,
    pub tx: Frac,
    pub ty: Frac,
}

/// What the `Uniform` policy computes, stated over exact rationals.
///
/// With `s` the uniform scale, the scaled design size in device space is
/// `(dw*s, dh*s)`; every translation below is that device-space shift
/// divided back by `s` (device units back into user-space units).
///
/// - Frame at least as wide as the safe area (`10*w >= 11*h`): fit to
///   height, `s = h/dh`; the scaled design height equals the frame height,
///   so the vertical shift is zero. Horizontally, content narrower than the
///   frame is centered: `(w - dw*s)/2 / s = (w*dh - dw*h)/(2*h)`. Content
///   wider than the frame is shifted left by the smaller of half the
///   overflow beyond the safe-area width, `(11*dw - 10*dh)/22`, and half
///   the raw overflow, `(dw*h - w*dh)/(2*h)` - never cropping more than
///   the safe-area bound demands.
/// - Otherwise: fit to the safe-area width, `s = w*10/(11*dh)`; the scaled
///   design height `10*w/11` is below the frame height, and the content is
///   anchored to the bottom edge: `ty = (h - 10*w/11)/s = dh*(11*h - 10*w)
///   /(10*w)`. Horizontal centering and cropping follow the same rule as
///   above, giving `(11*dh - 10*dw)/20` when centered and the smaller of
///   `(11*dw - 10*dh)/22` and `(10*dw - 11*dh)/20` when cropped.
pub open spec fn uniform_fit_spec(r: FitTransform, w: int, h: int, dw: int, dh: int) -> bool {
    if 10 * w >= 11 * h {
        &&& frac_is(r.sx, h, dh)
        &&& frac_is(r.sy, h, dh)
        &&& frac_is(r.ty, 0, 1)
        &&& (dw * h <= w * dh ==> frac_is(r.tx, w * dh - dw * h, 2 * h))
        &&& (dw * h > w * dh ==> {
            if (11 * dw - 10 * dh) * (2 * h) <= (dw * h - w * dh) * 22 {
                frac_is(r.tx, -(11 * dw - 10 * dh), 22)
            } else {
                frac_is(r.tx, -(dw * h - w * dh), 2 * h)
            }
        })
    } else {
        &&& frac_is(r.sx, 10 * w, 11 * dh)
        &&& frac_is(r.sy, 10 * w, 11 * dh)
        &&& frac_is(r.ty, dh * (11 * h - 10 * w), 10 * w)
        &&& (10 * dw <= 11 * dh ==> frac_is(r.tx, 11 * dh - 10 * dw, 20))
        &&& (10 * dw > 11 * dh ==> {
            if (11 * dw - 10 * dh) * 20 <= (10 * dw - 11 * dh) * 22 {
                frac_is(r.tx, -(11 * dw - 10 * dh), 22)
            } else {
                frac_is(r.tx, -(10 * dw - 11 * dh), 20)
            }
        })
    }
}

/// What the fit transform computes under each policy.
pub open spec fn fit_spec(
    st: ScaleType,
    r: FitTransform,
    w: int,
    h: int,
    dw: int,
    dh: int,
) -> bool {
    match st {
        ScaleType::Unscaled => {
            &&& frac_is(r.sx, 1, 1)
            &&& frac_is(r.sy, 1, 1)
            &&& frac_is(r.tx, 0, 1)
            &&& frac_is(r.ty, 0, 1)
        },
        ScaleType::NonUniform => {
            &&& frac_is(r.sx, w, dw)
            &&& frac_is(r.sy, h, dh)
            &&& frac_is(r.tx, 0, 1)
            &&& frac_is(r.ty, 0, 1)
        },
        ScaleType::Uniform => uniform_fit_spec(r, w, h, dw, dh),
    }
}

proof fn lemma_small_mul(a: int, b: int)
    by (nonlinear_arith)
    requires
        -0x10_0000_0000_0000 <= a <= 0x10_0000_0000_0000,
        -0x10_0000_0000_0000 <= b <= 0x10_0000_0000_0000,
    ensures
        -0x100_0000_0000_0000_0000_0000_0000 <= a * b
            <= 0x100_0000_0000_0000_0000_0000_0000,
        a > 0 && b > 0 ==> a * b > 0,
{
}

/// Computes the scale and translation mapping the design resolution
/// `(design_w, design_h)` onto the frame `(frame_w, frame_h)` under the
/// chosen policy; all four components are exact rationals.
pub fn fit_transform(
    st: ScaleType,
    frame_w: u32,
    frame_h: u32,
    design_w: u32,
    design_h: u32,
) -> (r: FitTransform)
    requires
        frame_w >= 1,
        frame_h >= 1,
        design_w >= 1,
        design_h >= 1,
    ensures
        fit_spec(st, r, frame_w as int, frame_h as int, design_w as int, design_h as int),
{
    let w = frame_w as i128;
    let h = frame_h as i128;
    let dw = design_w as i128;
    let dh = design_h as i128;
    let one = Frac { num: 1, den: 1 };
    let zero = Frac { num: 0, den: 1 };
    match st {
        ScaleType::Unscaled => FitTransform { sx: one, sy: one, tx: zero, ty: zero },
        ScaleType::NonUniform => FitTransform {
            sx: Frac { num: w, den: dw },
            sy: Frac { num: h, den: dh },
            tx: zero,
            ty: zero,
        },
        ScaleType::Uniform => {
            if 10 * w >= 11 * h {
                // fit to height: s = h/dh; no vertical shift possible
                let s = Frac { num: h, den: dh };
                proof {
                    lemma_small_mul(dw as int, h as int);
                    lemma_small_mul(w as int, dh as int);
                }
                let scaled_w = dw * h;  // scaled design width in device units, times dh
                let frame_w_cmp = w * dh;
                let tx = if scaled_w <= frame_w_cmp {
                    // center: half the free space, back in user units
                    Frac { num: frame_w_cmp - scaled_w, den: 2 * h }
                } else {
                    // crop: the smaller of the safe-area overflow and the raw overflow
                    let safe_over = 11 * dw - 10 * dh;
                    let raw_over = scaled_w - frame_w_cmp;
                    proof {
                        lemma_small_mul(safe_over as int, 2 * (h as int));
                    }
                    if safe_over * (2 * h) <= raw_over * 22 {
                        Frac { num: -safe_over, den: 22 }
                    } else {
                        Frac { num: -raw_over, den: 2 * h }
                    }
                };
                FitTransform { sx: s, sy: s, tx, ty: zero }
            } else {
                // fit to safe-area width: s = 10*w/(11*dh); bottom-anchor vertically
                let s = Frac { num: 10 * w, den: 11 * dh };
                proof {
                    lemma_small_mul(dh as int, 11 * (h as int) - 10 * (w as int));
                }
                let ty = Frac { num: dh * (11 * h - 10 * w), den: 10 * w };
                let tx = if 10 * dw <= 11 * dh {
                    Frac { num: 11 * dh - 10 * dw, den: 20 }
                } else {
                    let safe_over = 11 * dw - 10 * dh;
                    let raw_over = 10 * dw - 11 * dh;
                    if safe_over * 20 <= raw_over * 22 {
                        Frac { num: -safe_over, den: 22 }
                    } else {
                        Frac { num: -raw_over, den: 20 }
                    }
                };
                FitTransform { sx: s, sy: s, tx, ty }
            }
        },
    }
}

/// Law: when the frame aspect equals the safe-area aspect exactly and the
/// design shares that aspect, the `Uniform` policy lands in the
/// fit-to-height branch with scale `h/dh` and zero translation on both
/// axes.
pub proof fn lemma_uniform_equal_aspect_no_translation(
    r: FitTransform,
    w: int,
    h: int,
    dw: int,
    dh: int,
)
    requires
        w >= 1,
        h >= 1,
        dw >= 1,
        dh >= 1,
        10 * w == 11 * h,
        dw * h == w * dh,
        uniform_fit_spec(r, w, h, dw, dh),
    ensures
        frac_is(r.sx, h, dh),
        frac_is(r.sy, h, dh),
        frac_is(r.tx, 0, 1),
        frac_is(r.ty, 0, 1),
{
    assert(frac_is(r.tx, w * dh - dw * h, 2 * h));
    assert(frac_is(r.tx, 0, 2 * h));
    assert(r.tx.num * (2 * h) == 0);
    assert(r.tx.num == 0) by (nonlinear_arith)
        requires
            r.tx.num * (2 * h) == 0,
            h >= 1,
    ;
    assert(r.tx.num * 1 == 0 * r.tx.den);
}

} // verus!
