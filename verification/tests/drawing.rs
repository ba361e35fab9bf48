use spreet::resvg::usvg::{Node, NodeExt, NodeKind, Options, Tree, TreeParsing};
use sprites::{
    coordinate_key, key_coordinate, parse_document, Bounds, Extraction, Reply, Request, ShapeNode,
    ThemeRegistry,
};

/// An integer that orders as `x` does.
fn key(x: f32) -> i64 {
    coordinate_key(x.to_bits())
}

fn coordinate(key: i64) -> f32 {
    f32::from_bits(key_coordinate(key).unwrap())
}

fn shape_of(node: &Node) -> ShapeNode {
    match *node.borrow() {
        NodeKind::Path(_) => {
            let r = node.calculate_bbox().unwrap();
            ShapeNode::Path(Bounds {
                left: key(r.x()),
                top: key(r.y()),
                right: key(r.x() + r.width()),
                bottom: key(r.y() + r.height()),
            })
        }
        NodeKind::Group(_) => ShapeNode::Group(node.children().map(|c| shape_of(&c)).collect()),
        _ => ShapeNode::Other,
    }
}

fn view_box(b: Bounds) -> String {
    let min_x = coordinate(b.left) - 0.5;
    let min_y = coordinate(b.top) - 0.5;
    let max_x = coordinate(b.right) + 0.5;
    let max_y = coordinate(b.bottom) + 0.5;
    format!("{} {} {} {}", min_x, min_y, max_x - min_x, max_y - min_y)
}

fn extract(master: &str, icons: &[&str]) -> Vec<(String, String)> {
    let registry = ThemeRegistry {
        flavors: vec![(String::from("k"), vec![String::from("#000000"), String::from("#ffffff")])],
        icons: icons.iter().map(|name| (String::from(*name), String::from("k"))).collect(),
    };
    let master = parse_document(master.as_bytes()).unwrap();
    let (mut state, mut request) = Extraction::start(&master, &registry).unwrap();
    loop {
        let reply = match request {
            Request::Measure(bytes) => {
                Reply::Shape(Tree::from_data(&bytes, &Options::default()).ok().map(|tree| shape_of(&tree.root)))
            }
            Request::Frame(bounds) => Reply::Viewport(view_box(bounds)),
            Request::Finish => break,
        };
        (state, request) = state.step(reply).unwrap();
    }
    state
        .into_documents()
        .into_iter()
        .map(|(name, bytes)| (name, String::from_utf8(bytes).unwrap()))
        .collect()
}

#[test]
fn keys_order_as_coordinates_do() {
    let values = [
        f32::NEG_INFINITY,
        f32::MIN,
        -1.0e30,
        -20.5,
        -1.0,
        -0.5,
        -f32::MIN_POSITIVE,
        -1.0e-45,
        0.0,
        1.0e-45,
        f32::MIN_POSITIVE,
        0.25,
        1.0,
        9.5,
        10.0,
        1.0e30,
        f32::MAX,
        f32::INFINITY,
    ];
    for pair in values.windows(2) {
        assert!(key(pair[0]) < key(pair[1]), "{} and {}", pair[0], pair[1]);
    }
    for v in values {
        assert_eq!(coordinate(key(v)), v);
    }
}

#[test]
fn keys_and_bit_patterns_go_back_and_forth() {
    assert_eq!(coordinate_key(0), 0);
    assert_eq!(coordinate_key(1), 1);
    assert_eq!(coordinate_key(0x7fff_ffff), 0x7fff_ffff);
    assert_eq!(coordinate_key(0x8000_0000), -1);
    assert_eq!(coordinate_key(0x8000_0001), -2);
    assert_eq!(coordinate_key(0xffff_ffff), -0x8000_0000);
    assert_eq!(coordinate_key(1.0f32.to_bits()), 0x3f80_0000);
    assert_eq!(coordinate_key((-1.0f32).to_bits()), -0x3f80_0001);
    for bits in [0u32, 1, 0x3f80_0000, 0x7fff_ffff, 0x8000_0000, 0x8000_0001, 0xbf80_0000, 0xffff_ffff] {
        assert_eq!(key_coordinate(coordinate_key(bits)), Some(bits));
    }
    assert_eq!(key_coordinate(0x8000_0000), None);
    assert_eq!(key_coordinate(-0x8000_0001), None);
    assert_eq!(key_coordinate(i64::MAX), None);
    assert_eq!(key_coordinate(i64::MIN), None);
}

#[test]
fn the_viewport_is_the_box_of_the_path_and_a_margin() {
    let documents = extract(
        "<svg xmlns=\"http://www.w3.org/2000/svg\"><defs><style>.a{fill:#808080}</style></defs>\
<g id=\"#icon-a\"><path class=\"a\" d=\"M10 5 L20 5 L20 15 L10 15 Z\"/></g></svg>",
        &["icon-a"],
    );
    assert_eq!(documents.len(), 1);
    assert_eq!(documents[0].0, "icon-a");
    let document = parse_document(documents[0].1.as_bytes()).unwrap();
    assert_eq!(document.attribute("viewBox").map(|s| s.as_str()), Some("9.5 4.5 11 11"));
}

#[test]
fn other_groups_of_the_master_document_do_not_widen_the_viewport() {
    let documents = extract(
        "<svg xmlns=\"http://www.w3.org/2000/svg\"><defs><style>.a{fill:#808080}</style></defs>\
<g id=\"#far\"><path d=\"M-100 -100 H500 V500 H-100 Z\"/></g>\
<g id=\"#near\">label<g><path d=\"M1 2 H3 V4 H1 Z\"/><path d=\"M2 3 H7 V8 H2 Z\"/></g></g></svg>",
        &["near", "far"],
    );
    assert_eq!(documents.len(), 2);
    let far = parse_document(documents[0].1.as_bytes()).unwrap();
    let near = parse_document(documents[1].1.as_bytes()).unwrap();
    assert_eq!(far.attribute("viewBox").map(|s| s.as_str()), Some("-100.5 -100.5 601 601"));
    assert_eq!(near.attribute("viewBox").map(|s| s.as_str()), Some("0.5 1.5 7 7"));
}

#[test]
fn a_group_that_draws_nothing_stops_the_extraction() {
    let registry = ThemeRegistry {
        flavors: vec![(String::from("k"), vec![String::from("#000000"), String::from("#ffffff")])],
        icons: vec![(String::from("empty"), String::from("k"))],
    };
    let master = parse_document(b"<svg xmlns=\"http://www.w3.org/2000/svg\"><defs/><g id=\"#empty\">only a label</g></svg>").unwrap();
    let (state, request) = Extraction::start(&master, &registry).unwrap();
    let Request::Measure(bytes) = request else { panic!("expected a request to measure") };
    let shape = Tree::from_data(&bytes, &Options::default()).ok().map(|tree| shape_of(&tree.root));
    let outcome = state.step(Reply::Shape(shape));
    assert!(matches!(outcome, Err(sprites::ExtractError::EmptyArtwork(name)) if name == "empty"));
}
