use vstd::prelude::*;
use crate::errors::ParseError;
use crate::time_index::Transition;

verus! {

#[verifier::external_type_specification]
#[verifier::external_body]
pub struct ExUsvgTree(resvg::usvg::Tree);

/// Relies on `resvg::usvg::Tree::from_data`: parses one self-contained
/// vector scene out of its markup, with rendering hints set to the
/// highest quality; `None` when the payload is not a usable scene.
#[verifier::external_body]
fn parse_scene_raw(payload: &[u8]) -> (r: Option<resvg::usvg::Tree>) {
    let opt = resvg::usvg::Options {
        shape_rendering: resvg::usvg::ShapeRendering::GeometricPrecision,
        text_rendering: resvg::usvg::TextRendering::GeometricPrecision,
        image_rendering: resvg::usvg::ImageRendering::OptimizeQuality,
        ..resvg::usvg::Options::default()
    };
    resvg::usvg::Tree::from_data(payload, &opt).ok()
}

/// Parses one embedded scene payload; a payload the scene parser refuses
/// is the invalid-scene parse error.
pub fn parse_scene(payload: &[u8]) -> (r: Result<resvg::usvg::Tree, ParseError>)
    ensures
        r matches Err(e) ==> e == ParseError::InvalidScene,
{
    match parse_scene_raw(payload) {
        Some(t) => Ok(t),
        None => Err(ParseError::InvalidScene),
    }
}

/// Parses every entry's scene payload, keeping times and draw indices
/// untouched; the first unusable payload aborts the catalog with the
/// invalid-scene error, so a finalized catalog only holds parsed scenes.
pub fn attach_scenes(entries: Vec<Transition<Vec<u8>>>) -> (r: Result<
    Vec<Transition<resvg::usvg::Tree>>,
    ParseError,
>)
    ensures
        entries@.len() == 0 ==> r is Ok,
        r matches Err(e) ==> e == ParseError::InvalidScene,
        r matches Ok(v) ==> v@.len() == entries@.len() && (forall|k: int|
            0 <= k < v@.len() ==> (#[trigger] v@[k]).time_in == entries@[k].time_in
                && v@[k].time_out == entries@[k].time_out && v@[k].index == entries@[k].index),
{
    let ghost given = entries@;
    let mut src = entries;
    let mut out: Vec<Transition<resvg::usvg::Tree>> = Vec::new();
    while src.len() > 0
        invariant
            given == entries@,
            out@.len() + src@.len() == given.len(),
            src@ =~= given.skip(out@.len() as int),
            forall|k: int|
                0 <= k < out@.len() ==> (#[trigger] out@[k]).time_in == given[k].time_in
                    && out@[k].time_out == given[k].time_out && out@[k].index == given[k].index,
        decreases src.len(),
    {
        let t = src.remove(0);
        proof {
            assert(given.skip(out@.len() as int)[0] == given[out@.len() as int]);
        }
        let scene = match parse_scene(t.scene.as_slice()) {
            Ok(s) => s,
            Err(e) => {
                return Err(e);
            },
        };
        out.push(Transition { time_in: t.time_in, time_out: t.time_out, index: t.index, scene });
        proof {
            assert(src@ =~= given.skip(out@.len() as int));
        }
    }
    Ok(out)
}

} // verus!
