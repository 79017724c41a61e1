use vstd::prelude::*;
use crate::Millis;
use crate::errors::ParseError;
use crate::fit::{FitTransform, ScaleType, fit_spec, fit_transform};
use crate::path::{DrawCmd, PathDef, Shape, all_shape_cmds, shapes_wf, shapes_valid, render_shapes};

verus! {

/// One transition of the compact binary scene form: a closed time window
/// (the schema always carries a concrete `time_out`; an absent value
/// decodes as zero, which makes the window empty) and the shapes to draw.
pub struct SrfTransition {
    pub time_in: Millis,
    pub time_out: Millis,
    pub shapes: Vec<Shape>,
}

/// The decoded compact binary scene document: design resolution, the
/// reusable path table, and the transition list in timeline order.
pub struct RenderingData {
    pub width: u32,
    pub height: u32,
    pub paths: Vec<PathDef>,
    pub transitions: Vec<SrfTransition>,
}

/// Whether transition `t` is active at `ts`: inclusive at `time_in`,
/// exclusive at `time_out`.
pub open spec fn srf_active(t: SrfTransition, ts: Millis) -> bool {
    t.time_in <= ts && ts < t.time_out
}

/// The timeline shape the binary form promises: non-empty windows laid
/// out in order without overlap.
pub open spec fn srf_sorted(s: Seq<SrfTransition>) -> bool {
    &&& forall|i: int| 0 <= i < s.len() ==> (#[trigger] s[i]).time_in < s[i].time_out
    &&& forall|i: int| 0 <= i < s.len() - 1 ==> (#[trigger] s[i]).time_out <= s[i + 1].time_in
}

proof fn lemma_srf_chain(s: Seq<SrfTransition>, j: int, k: int)
    requires
        srf_sorted(s),
        0 <= j < k < s.len(),
    ensures
        s[j].time_out <= s[k].time_in,
    decreases k - j,
{
    if j + 1 == k {
    } else {
        lemma_srf_chain(s, j + 1, k);
        assert(s[j].time_out <= s[j + 1].time_in);
        assert(s[j + 1].time_in < s[j + 1].time_out);
    }
}

/// Everything `compose_srf` leans on: positive dimensions and path
/// references inside the path table.
pub open spec fn rd_wf(rd: RenderingData) -> bool {
    &&& rd.width >= 1
    &&& rd.height >= 1
    &&& forall|i: int|
        0 <= i < rd.transitions@.len() ==> shapes_wf(
            rd.paths@,
            (#[trigger] rd.transitions@[i]).shapes@,
        )
}

impl RenderingData {
    /// Validates a freshly decoded document: the design resolution must
    /// be positive and every shape must point into the path table.
    pub fn validate(&self) -> (r: Result<(), ParseError>)
        ensures
            r is Ok <==> rd_wf(*self),
            (self.width == 0 || self.height == 0) ==> r == Err::<(), ParseError>(
                ParseError::InvalidNumber,
            ),
            self.width >= 1 && self.height >= 1 ==> (r matches Err(e) ==> e
                == ParseError::InvalidPathReference),
    {
        if self.width == 0 || self.height == 0 {
            return Err(ParseError::InvalidNumber);
        }
        let mut i: usize = 0;
        while i < self.transitions.len()
            invariant
                i <= self.transitions@.len(),
                self.width >= 1,
                self.height >= 1,
                forall|j: int|
                    0 <= j < i ==> shapes_wf(
                        self.paths@,
                        (#[trigger] self.transitions@[j]).shapes@,
                    ),
            decreases self.transitions@.len() - i,
        {
            if !shapes_valid(&self.paths, &self.transitions[i].shapes) {
                proof {
                    assert(!shapes_wf(self.paths@, (self.transitions@[i as int]).shapes@));
                }
                return Err(ParseError::InvalidPathReference);
            }
            i += 1;
        }
        Ok(())
    }
}

/// Binary search for a transition whose window contains `ts`. Whatever
/// the data, a returned index is really active at `ts` and the search
/// terminates; when the timeline is well-formed (`srf_sorted`), a `None`
/// additionally means no transition at all is active.
pub fn find_transition(transitions: &Vec<SrfTransition>, ts: Millis) -> (r: Option<usize>)
    ensures
        r matches Some(i) ==> i < transitions@.len() && srf_active(transitions@[i as int], ts),
        srf_sorted(transitions@) && r is None ==> forall|j: int|
            0 <= j < transitions@.len() ==> !srf_active(#[trigger] transitions@[j], ts),
{
    let mut lo: usize = 0;
    let mut hi: usize = transitions.len();
    while lo < hi
        invariant
            lo <= hi <= transitions@.len(),
            srf_sorted(transitions@) ==> forall|j: int|
                0 <= j < lo ==> !srf_active(#[trigger] transitions@[j], ts),
            srf_sorted(transitions@) ==> forall|j: int|
                hi <= j < transitions@.len() ==> !srf_active(#[trigger] transitions@[j], ts),
        decreases hi - lo,
    {
        let mid = lo + (hi - lo) / 2;
        let t = &transitions[mid];
        if ts >= t.time_in && ts < t.time_out {
            return Some(mid);
        }
        if t.time_in < ts || t.time_out < ts {
            proof {
                if srf_sorted(transitions@) {
                    assert(transitions@[mid as int].time_in < transitions@[mid as int].time_out);
                    assert(ts >= transitions@[mid as int].time_out);
                    assert forall|j: int| 0 <= j < mid + 1
                        implies !srf_active(#[trigger] transitions@[j], ts) by {
                        if j < mid as int {
                            lemma_srf_chain(transitions@, j, mid as int);
                            assert(transitions@[j].time_out <= transitions@[mid as int].time_in);
                        }
                    }
                }
            }
            lo = mid + 1;
        } else {
            proof {
                if srf_sorted(transitions@) {
                    assert(transitions@[mid as int].time_in < transitions@[mid as int].time_out);
                    assert(ts < transitions@[mid as int].time_in);
                    assert forall|j: int| mid <= j < transitions@.len()
                        implies !srf_active(#[trigger] transitions@[j], ts) by {
                        if j > mid as int {
                            lemma_srf_chain(transitions@, mid as int, j);
                        }
                    }
                }
            }
            hi = mid;
        }
    }
    None
}

/// Composes one frame of the binary-scene filter: looks the timestamp up,
/// and when a transition is active computes the fit transform for the
/// frame and reconstructs that transition's drawing commands. `None` is
/// the no-op frame; on a well-formed timeline it happens exactly when no
/// transition covers `ts`.
pub fn compose_srf(
    scale_type: ScaleType,
    rd: &RenderingData,
    frame_w: u32,
    frame_h: u32,
    ts: Millis,
) -> (r: Option<(usize, FitTransform, Vec<DrawCmd>)>)
    requires
        rd_wf(*rd),
        frame_w >= 1,
        frame_h >= 1,
    ensures
        r matches Some((i, tr, cmds)) ==> i < rd.transitions@.len() && srf_active(
            rd.transitions@[i as int],
            ts,
        ) && fit_spec(
            scale_type,
            tr,
            frame_w as int,
            frame_h as int,
            rd.width as int,
            rd.height as int,
        ) && cmds@ == all_shape_cmds(rd.paths@, rd.transitions@[i as int].shapes@),
        srf_sorted(rd.transitions@) && r is None ==> forall|j: int|
            0 <= j < rd.transitions@.len() ==> !srf_active(#[trigger] rd.transitions@[j], ts),
{
    match find_transition(&rd.transitions, ts) {
        None => None,
        Some(i) => {
            let tr = fit_transform(scale_type, frame_w, frame_h, rd.width, rd.height);
            let cmds = render_shapes(&rd.paths, &rd.transitions[i].shapes);
            Some((i, tr, cmds))
        },
    }
}

} // verus!
