use overlay_core::{
    Compression, ConfigError, InitArgsBuilder, ParseError, RenderingData, ScaleType, Shape,
    PathDef, SrfTransition, XmlAttr, XmlChild, XmlDoc, XmlNode, attach_scenes, build_transitions,
    compose_srf, decode_xml, decompress_source, delegate_result_ok, find_transition,
    parse_srf_config, parse_svg_config, parse_tsvg_config, validate_jvm_config,
};

#[test]
fn scenario_srf_config_grammar() {
    let c = parse_srf_config(b"scale_type=non_uniform,srf=/x.srf").unwrap();
    assert!(matches!(c.scale_type, ScaleType::NonUniform));
    assert_eq!(b"/x.srf".to_vec(), c.path);

    let c = parse_srf_config(b"srf=/x.srf").unwrap();
    assert!(matches!(c.scale_type, ScaleType::Uniform));
    assert_eq!(b"/x.srf".to_vec(), c.path);

    let c = parse_srf_config(b"scale_type=none,srf=p").unwrap();
    assert!(matches!(c.scale_type, ScaleType::Unscaled));

    let c = parse_srf_config(b"scale_type=uniform,srf=p").unwrap();
    assert!(matches!(c.scale_type, ScaleType::Uniform));

    // a string lacking the resource key is a configuration error
    assert_eq!(Err(ConfigError::Malformed), parse_srf_config(b"scale_type=uniform"));
    assert_eq!(Err(ConfigError::Malformed), parse_srf_config(b"srf="));
    assert_eq!(Err(ConfigError::Malformed), parse_srf_config(b"scale_type=big,srf=p"));
    assert_eq!(Err(ConfigError::Malformed), parse_srf_config(b"srf=a\nb"));
    assert_eq!(Err(ConfigError::Malformed), parse_srf_config(b""));
}

#[test]
fn tsvg_config_grammar() {
    let c = parse_tsvg_config(b"tsvg=/a.tsvg").unwrap();
    assert!(matches!(c.compression, Compression::Gzip));
    assert_eq!(b"/a.tsvg".to_vec(), c.path);

    let c = parse_tsvg_config(b"compression=none,tsvg=/a").unwrap();
    assert!(matches!(c.compression, Compression::Uncompressed));

    let c = parse_tsvg_config(b"compression=gzip,tsvg=/a").unwrap();
    assert!(matches!(c.compression, Compression::Gzip));

    assert_eq!(Err(ConfigError::Malformed), parse_tsvg_config(b"compression=zip,tsvg=/a"));
    assert_eq!(Err(ConfigError::Malformed), parse_tsvg_config(b"compression=none,"));
}

#[test]
fn svg_config_grammar() {
    let c = parse_svg_config(b"svg=/a.svg").unwrap();
    assert_eq!(b"/a.svg".to_vec(), c.path);
    // this grammar alone allows an empty path
    let c = parse_svg_config(b"svg=").unwrap();
    assert_eq!(Vec::<u8>::new(), c.path);
    assert_eq!(Err(ConfigError::Malformed), parse_svg_config(b"png=/a"));
}

fn text_node(text: &[u8]) -> XmlNode {
    XmlNode {
        element: false,
        text_node: true,
        tag: vec![],
        text: text.to_vec(),
        attrs: vec![],
        children: vec![],
    }
}

fn transition_node(attrs: Vec<(&[u8], &[u8])>, payload: &[u8]) -> XmlNode {
    XmlNode {
        element: true,
        text_node: false,
        tag: b"transition".to_vec(),
        text: vec![],
        attrs: attrs
            .iter()
            .map(|(k, v)| XmlAttr { namespaced: false, name: k.to_vec(), value: v.to_vec() })
            .collect(),
        children: vec![XmlChild { text_node: true, text: payload.to_vec() }],
    }
}

#[test]
fn build_transitions_validates_records() {
    let doc = XmlDoc {
        root_tag: b"transitions".to_vec(),
        nodes: vec![
            text_node(b"\n  "),
            transition_node(vec![(b"time-in", b"4"), (b"time-out", b"8")], b"<svg/>"),
            transition_node(vec![(b"time-in", b"10"), (b"index", b"7")], b"  <svg/> \n"),
        ],
    };
    let entries = build_transitions(&doc).unwrap();
    assert_eq!(2, entries.len());
    assert_eq!(4, entries[0].time_in);
    assert_eq!(Some(8), entries[0].time_out);
    // the default index is the document position, whitespace included
    assert_eq!(1, entries[0].index);
    assert_eq!(b"<svg/>".to_vec(), entries[0].scene);
    assert_eq!(10, entries[1].time_in);
    assert_eq!(None, entries[1].time_out);
    assert_eq!(7, entries[1].index);
    // the payload is stored trimmed
    assert_eq!(b"<svg/>".to_vec(), entries[1].scene);
}

#[test]
fn build_transitions_reports_each_error() {
    let ok_payload: &[u8] = b"<svg/>";
    let wrong_root = XmlDoc { root_tag: b"scenes".to_vec(), nodes: vec![] };
    assert_eq!(Err(ParseError::UnexpectedRoot), build_transitions(&wrong_root));

    let stray_text = XmlDoc {
        root_tag: b"transitions".to_vec(),
        nodes: vec![text_node(b"stray")],
    };
    assert_eq!(Err(ParseError::UnexpectedText), build_transitions(&stray_text));

    let wrong_element = XmlDoc {
        root_tag: b"transitions".to_vec(),
        nodes: vec![XmlNode { tag: b"scene".to_vec(), ..transition_node(vec![], ok_payload) }],
    };
    assert_eq!(Err(ParseError::UnexpectedElement), build_transitions(&wrong_element));

    let missing_time_in = XmlDoc {
        root_tag: b"transitions".to_vec(),
        nodes: vec![transition_node(vec![(b"time-out", b"8")], ok_payload)],
    };
    assert_eq!(Err(ParseError::MissingTimeIn), build_transitions(&missing_time_in));

    let bad_number = XmlDoc {
        root_tag: b"transitions".to_vec(),
        nodes: vec![transition_node(vec![(b"time-in", b"4x")], ok_payload)],
    };
    assert_eq!(Err(ParseError::InvalidNumber), build_transitions(&bad_number));

    let negative = XmlDoc {
        root_tag: b"transitions".to_vec(),
        nodes: vec![transition_node(vec![(b"time-in", b"-4")], ok_payload)],
    };
    assert_eq!(Err(ParseError::InvalidNumber), build_transitions(&negative));

    let blank_scene = XmlDoc {
        root_tag: b"transitions".to_vec(),
        nodes: vec![transition_node(vec![(b"time-in", b"4")], b"  \n ")],
    };
    assert_eq!(Err(ParseError::EmptyScene), build_transitions(&blank_scene));

    let mut no_scene = transition_node(vec![(b"time-in", b"4")], ok_payload);
    no_scene.children.clear();
    let missing_scene = XmlDoc { root_tag: b"transitions".to_vec(), nodes: vec![no_scene] };
    assert_eq!(Err(ParseError::MissingScene), build_transitions(&missing_scene));

    let mut namespaced = transition_node(vec![(b"time-out", b"8")], ok_payload);
    namespaced.attrs.push(XmlAttr {
        namespaced: true,
        name: b"time-in".to_vec(),
        value: b"4".to_vec(),
    });
    let foreign = XmlDoc { root_tag: b"transitions".to_vec(), nodes: vec![namespaced] };
    // an attribute under a namespace is not the schema's plain `time-in`
    assert_eq!(Err(ParseError::MissingTimeIn), build_transitions(&foreign));

    let mut two = transition_node(vec![(b"time-in", b"4")], ok_payload);
    two.children.push(XmlChild { text_node: true, text: b"more".to_vec() });
    let crowded = XmlDoc { root_tag: b"transitions".to_vec(), nodes: vec![two] };
    assert_eq!(Err(ParseError::MultipleSceneChildren), build_transitions(&crowded));
}

#[test]
fn decode_xml_reduces_the_document() {
    let text = b"<transitions>\n<transition time-in=\"2\" time-out=\"10\">&lt;svg/&gt;</transition>\n</transitions>";
    let doc = decode_xml(text).unwrap();
    assert_eq!(b"transitions".to_vec(), doc.root_tag);
    let entries = build_transitions(&doc).unwrap();
    assert_eq!(1, entries.len());
    assert_eq!(2, entries[0].time_in);
    assert_eq!(Some(10), entries[0].time_out);
    assert_eq!(1, entries[0].index);
    // the escaped payload comes back as plain markup text
    assert_eq!(b"<svg/>".to_vec(), entries[0].scene);

    assert!(decode_xml(b"not xml <").is_err());
    assert_eq!(
        Err(ParseError::UnexpectedRoot),
        decode_xml(b"<scenes/>").and_then(|d| build_transitions(&d)),
    );
}

#[test]
fn decompress_round_trip() {
    let plain = b"plain bytes stay plain".to_vec();
    let out = decompress_source(Compression::Uncompressed, &plain).unwrap();
    assert_eq!(plain, out);

    let mut enc = flate2::write::GzEncoder::new(Vec::new(), flate2::Compression::default());
    std::io::Write::write_all(&mut enc, b"timed overlay document").unwrap();
    let packed = enc.finish().unwrap();
    let out = decompress_source(Compression::Gzip, &packed).unwrap();
    assert_eq!(b"timed overlay document".to_vec(), out);

    assert!(decompress_source(Compression::Gzip, b"not gzip at all").is_err());
}

#[test]
fn attach_scenes_parses_payloads() {
    let svg: &[u8] = b"<svg xmlns=\"http://www.w3.org/2000/svg\" width=\"4\" height=\"4\"/>";
    let entries = vec![overlay_core::Transition {
        time_in: 3,
        time_out: Some(9),
        index: 5,
        scene: svg.to_vec(),
    }];
    let with_scenes = attach_scenes(entries).unwrap();
    assert_eq!(1, with_scenes.len());
    assert_eq!(3, with_scenes[0].time_in);
    assert_eq!(Some(9), with_scenes[0].time_out);
    assert_eq!(5, with_scenes[0].index);

    let bad = vec![overlay_core::Transition {
        time_in: 0,
        time_out: None,
        index: 0,
        scene: b"not a scene".to_vec(),
    }];
    assert_eq!(Err(ParseError::InvalidScene), attach_scenes(bad).map(|_| ()));
}

fn srf_window(time_in: u64, time_out: u64) -> SrfTransition {
    SrfTransition { time_in, time_out, shapes: vec![] }
}

#[test]
fn find_transition_on_sorted_timeline() {
    let windows = vec![srf_window(0, 10), srf_window(10, 20), srf_window(30, 40)];
    assert_eq!(Some(0), find_transition(&windows, 5));
    assert_eq!(Some(1), find_transition(&windows, 10));
    assert_eq!(Some(2), find_transition(&windows, 39));
    assert_eq!(None, find_transition(&windows, 25));
    assert_eq!(None, find_transition(&windows, 40));
    assert_eq!(None, find_transition(&vec![], 0));
}

#[test]
fn compose_srf_skips_or_draws() {
    let rd = RenderingData {
        width: 640,
        height: 360,
        paths: vec![PathDef { segments: vec![] }],
        transitions: vec![SrfTransition {
            time_in: 10,
            time_out: 20,
            shapes: vec![Shape {
                path_index: 0,
                x: 0,
                y: 0,
                argb: 0xffff_ffff,
                fill: true,
                line_width: 0,
            }],
        }],
    };
    assert!(rd.validate().is_ok());
    assert!(compose_srf(ScaleType::Uniform, &rd, 1280, 720, 5).is_none());
    let (i, tr, cmds) = compose_srf(ScaleType::Uniform, &rd, 1280, 720, 15).unwrap();
    assert_eq!(0, i);
    assert!(tr.sx.den > 0);
    assert_eq!(4, cmds.len()); // save, translate, fill, restore

    let broken = RenderingData {
        width: 640,
        height: 360,
        paths: vec![],
        transitions: vec![SrfTransition {
            time_in: 0,
            time_out: 1,
            shapes: vec![Shape { path_index: 3, x: 0, y: 0, argb: 0, fill: true, line_width: 0 }],
        }],
    };
    assert_eq!(Err(ParseError::InvalidPathReference), broken.validate());
    let flat = RenderingData { width: 0, height: 360, paths: vec![], transitions: vec![] };
    assert_eq!(Err(ParseError::InvalidNumber), flat.validate());
}

#[test]
fn jvm_config_validation() {
    let props = vec![
        (b" user.dir ".to_vec(), b" /tmp ".to_vec()),
        (b"a".to_vec(), b"b".to_vec()),
    ];
    let plan = validate_jvm_config(b" Overlay ", &props).unwrap();
    assert_eq!(b"Overlay".to_vec(), plan.class_name);
    let opts = plan.builder.into_options();
    assert_eq!(2, opts.len());
    assert_eq!(b"-Duser.dir=/tmp".to_vec(), opts[0]);
    assert_eq!(b"-Da=b".to_vec(), opts[1]);

    assert_eq!(
        Err(ConfigError::EmptyClassName),
        validate_jvm_config(b"  ", &vec![]).map(|_| ()),
    );
    assert_eq!(
        Err(ConfigError::EmptyProperty),
        validate_jvm_config(b"C", &vec![(b" ".to_vec(), b"x".to_vec())]).map(|_| ()),
    );
}

#[test]
fn init_args_builder_formats_properties() {
    let mut b = InitArgsBuilder::new();
    b.property("java.class.path", "/opt/overlay.jar");
    b.property("k", "v");
    let opts = b.into_options();
    assert_eq!(2, opts.len());
    assert_eq!(b"-Djava.class.path=/opt/overlay.jar".to_vec(), opts[0]);
    assert_eq!(b"-Dk=v".to_vec(), opts[1]);
}

#[test]
fn delegate_length_rule() {
    assert!(delegate_result_ok(4096, 4096).is_ok());
    let e = delegate_result_ok(4096, 4095).unwrap_err();
    assert_eq!(4096, e.expected);
    assert_eq!(4095, e.actual);
}
