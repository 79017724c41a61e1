use overlay_core::{
    DrawCmd, Frac, PathDef, PointFx, ScaleType, Segment, Shape, argb_channels, fit_transform,
    frame_descriptor_ok, render_shapes, shapes_valid,
};

fn val(q: Frac) -> f64 {
    q.num as f64 / q.den as f64
}

#[test]
fn uniform_equal_aspect_fits_height_with_zero_translation() {
    // frame aspect 1100/1000 equals the 11/10 safe-area aspect, and the
    // design shares it: fit to height, no shift on either axis
    let r = fit_transform(ScaleType::Uniform, 1100, 1000, 550, 500);
    assert!((val(r.sx) - 2.0).abs() < 1e-12);
    assert!((val(r.sy) - 2.0).abs() < 1e-12);
    assert_eq!(0, r.tx.num);
    assert_eq!(0, r.ty.num);
}

#[test]
fn uniform_narrow_frame_anchors_bottom() {
    // 10*w < 11*h: fit to the safe-area width, content rides the bottom
    let r = fit_transform(ScaleType::Uniform, 1000, 2000, 100, 100);
    // s = 10*1000 / (11*100)
    assert!((val(r.sx) - 10000.0 / 1100.0).abs() < 1e-12);
    // ty = dh*(11*h - 10*w)/(10*w) = 100*12000/10000
    assert!((val(r.ty) - 120.0).abs() < 1e-12);
}

#[test]
fn uniform_wide_content_crops_no_more_than_needed() {
    // equal-aspect frame, content twice as wide as the frame can show:
    // the raw overflow (325) is smaller than the safe-area overflow
    let r = fit_transform(ScaleType::Uniform, 1100, 1000, 1200, 500);
    assert!((val(r.tx) + 325.0).abs() < 1e-12);
    assert_eq!(0, r.ty.num);
}

#[test]
fn non_uniform_scales_each_axis() {
    let r = fit_transform(ScaleType::NonUniform, 1920, 1080, 640, 360);
    assert!((val(r.sx) - 3.0).abs() < 1e-12);
    assert!((val(r.sy) - 3.0).abs() < 1e-12);
    assert_eq!(0, r.tx.num);
    assert_eq!(0, r.ty.num);
}

#[test]
fn unscaled_is_identity() {
    let r = fit_transform(ScaleType::Unscaled, 77, 99, 11, 13);
    assert!((val(r.sx) - 1.0).abs() < 1e-12);
    assert!((val(r.sy) - 1.0).abs() < 1e-12);
    assert_eq!(0, r.tx.num);
    assert_eq!(0, r.ty.num);
}

#[test]
fn scenario_quadratic_elevates_exactly() {
    // quadratic P0=(0,0), C=(64,0), P=(64,64) in 1/64-pixel units must
    // elevate to cubic controls (2/3, 0) and (1, 1/3) in pixels
    let paths = vec![PathDef {
        segments: vec![
            Segment::Move(PointFx { x: 0, y: 0 }),
            Segment::Quad(PointFx { x: 64, y: 0 }, PointFx { x: 64, y: 64 }),
        ],
    }];
    let shapes = vec![Shape {
        path_index: 0,
        x: 0,
        y: 0,
        argb: 0xff00_0000,
        fill: true,
        line_width: 0,
    }];
    assert!(shapes_valid(&paths, &shapes));
    let cmds = render_shapes(&paths, &shapes);
    match cmds[3] {
        DrawCmd::CurveTo { x1, y1, x2, y2, x3, y3 } => {
            // coordinates are in 1/192-pixel units
            assert!((x1 as f64 / 192.0 - 2.0 / 3.0).abs() < 1e-9);
            assert!((y1 as f64 / 192.0 - 0.0).abs() < 1e-9);
            assert!((x2 as f64 / 192.0 - 1.0).abs() < 1e-9);
            assert!((y2 as f64 / 192.0 - 1.0 / 3.0).abs() < 1e-9);
            assert!((x3 as f64 / 192.0 - 1.0).abs() < 1e-9);
            assert!((y3 as f64 / 192.0 - 1.0).abs() < 1e-9);
        },
        _ => panic!("expected the elevated cubic"),
    }
}

#[test]
fn shape_scope_and_styling_commands() {
    let paths = vec![PathDef {
        segments: vec![
            Segment::Move(PointFx { x: 64, y: 64 }),
            Segment::Line(PointFx { x: 128, y: 64 }),
            Segment::Close,
        ],
    }];
    let shapes = vec![Shape {
        path_index: 0,
        x: 32,
        y: -32,
        argb: 0x80ff_7f01,
        fill: false,
        line_width: 96,
    }];
    let cmds = render_shapes(&paths, &shapes);
    assert_eq!(cmds.len(), 7);
    assert!(matches!(cmds[0], DrawCmd::Save));
    assert!(matches!(cmds[1], DrawCmd::Translate { x: 32, y: -32 }));
    assert!(matches!(cmds[2], DrawCmd::MoveTo { x: 192, y: 192 }));
    assert!(matches!(cmds[3], DrawCmd::LineTo { x: 384, y: 192 }));
    assert!(matches!(cmds[4], DrawCmd::ClosePath));
    assert!(matches!(
        cmds[5],
        DrawCmd::Stroke { a: 0x80, r: 0xff, g: 0x7f, b: 0x01, width: 96 }
    ));
    assert!(matches!(cmds[6], DrawCmd::Restore));
}

#[test]
fn close_returns_pen_to_subpath_start() {
    // after a Close, a quadratic measures from the subpath start again
    let paths = vec![PathDef {
        segments: vec![
            Segment::Move(PointFx { x: 64, y: 0 }),
            Segment::Line(PointFx { x: 128, y: 128 }),
            Segment::Close,
            Segment::Quad(PointFx { x: 0, y: 0 }, PointFx { x: 64, y: 64 }),
        ],
    }];
    let shapes = vec![Shape { path_index: 0, x: 0, y: 0, argb: 0, fill: true, line_width: 0 }];
    let cmds = render_shapes(&paths, &shapes);
    match cmds[5] {
        // c1 = pen + 2*C with the pen back at (64, 0)
        DrawCmd::CurveTo { x1, y1, .. } => {
            assert_eq!(64, x1);
            assert_eq!(0, y1);
        },
        _ => panic!("expected a cubic after the close"),
    }
}

#[test]
fn invalid_path_reference_is_detected() {
    let paths = vec![PathDef { segments: vec![] }];
    let shapes = vec![Shape { path_index: 1, x: 0, y: 0, argb: 0, fill: true, line_width: 0 }];
    assert!(!shapes_valid(&paths, &shapes));
}

#[test]
fn argb_channel_extraction() {
    let (a, r, g, b) = argb_channels(0x80ff_7f01);
    assert_eq!((0x80, 0xff, 0x7f, 0x01), (a, r, g, b));
    let (a, r, g, b) = argb_channels(0);
    assert_eq!((0, 0, 0, 0), (a, r, g, b));
}

#[test]
fn frame_descriptor_rules() {
    assert!(frame_descriptor_ok(2, 2, 8, 16).is_ok());
    // stride with padding; the buffer must still hold the last scanline
    assert!(frame_descriptor_ok(2, 2, 10, 18).is_ok());
    assert!(frame_descriptor_ok(2, 2, 10, 17).is_err());
    assert!(frame_descriptor_ok(2, 2, 7, 64).is_err()); // stride < 4*width
    assert!(frame_descriptor_ok(0, 2, 8, 64).is_err());
    assert!(frame_descriptor_ok(2, 0, 8, 64).is_err());
    assert!(frame_descriptor_ok(2, -1, 8, 64).is_err());
}
