use vstd::prelude::*;

verus! {

/// Milliseconds since stream start; the unit every time window is stated in.
pub type Millis = u64;

/// True when `ts` lies inside the half-open window `[time_in, time_out)`,
/// where an absent `time_out` leaves the window open-ended.
pub open spec fn in_window(time_in: Millis, time_out: Option<Millis>, ts: Millis) -> bool {
    &&& time_in <= ts
    &&& match time_out {
        Some(t) => ts < t,
        None => true,
    }
}

/// Decides window membership; the boundary semantics are inclusive at
/// `time_in` and exclusive at `time_out`.
pub fn window_contains(time_in: Millis, time_out: Option<Millis>, ts: Millis) -> (r: bool)
    ensures
        r == in_window(time_in, time_out, ts),
{
    if ts < time_in {
        false
    } else {
        match time_out {
            Some(t) => ts < t,
            None => true,
        }
    }
}

} // verus!

mod time_index;
mod fit;
mod path;
mod errors;
mod bytes;
mod jvm;
mod config;
mod srf;
mod compose;
mod catalog;
mod scene;
pub use time_index::{Transition, TimeIndex, active, out_le, key_le, sorted_by_key};
pub use scene::{parse_scene, attach_scenes};
pub use catalog::{XmlChild, XmlAttr, XmlNode, XmlDoc, gunzip_of, xml_doc_of, EntrySpec, attr_lookup, transition_spec, nodes_spec, doc_entries_spec, entries_of, build_transitions, decompress_source, decode_xml};
pub use srf::{SrfTransition, RenderingData, srf_active, srf_sorted, rd_wf, find_transition, compose_srf};
pub use compose::{descriptor_ok, frame_skippable, frame_descriptor_ok};
pub use config::{Compression, SrfConfig, TsvgConfig, SvgConfig, parse_srf_config, parse_tsvg_config, parse_svg_config, srf_config_spec, tsvg_config_spec, svg_config_spec, starts_with, no_newline, is_path_tail};
pub use jvm::{InitArgsBuilder, JvmPlan, property_bytes, jvm_options_spec, validate_jvm_config, delegate_result_ok};
pub use errors::{ConfigError, ParseError, ResourceError, GraphicsError, DelegateMismatch};
pub use bytes::{trim_bytes, trim_spec, is_blank, all_ws, is_ws, parse_u64_dec, parse_usize_dec, is_u64_dec, digits_val, dec_body, is_digit, all_digits};
pub use path::{PointFx, Segment, PathDef, Shape, DrawCmd, PenState, pen_init, seg_cmd, seg_step, path_cmds, shape_cmds, all_shape_cmds, shapes_wf, shapes_valid, render_shapes, argb_channels, argb_a, argb_r, argb_g, argb_b, lemma_quad_elevation_exact};
pub use fit::{ScaleType, Frac, FitTransform, fit_transform, frac_is, fit_spec, uniform_fit_spec, SAFE_AR_WIDTH, SAFE_AR_HEIGHT};
