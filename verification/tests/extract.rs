use sprites::{
    is_ignored, parse_document, resolve_icon_name, select_icons, serialize, Bounds, ExtractError,
    Extraction, Reply, Request, ShapeNode, ThemeRegistry, XmlElement, XmlNode,
};

fn s(text: &str) -> String {
    String::from(text)
}

fn registry(icons: &[&str]) -> ThemeRegistry {
    ThemeRegistry {
        flavors: vec![(s("k"), vec![s("#000000"), s("#ffffff")]), (s("warm"), vec![s("#200000"), s("#ffe0c0")])],
        icons: icons.iter().map(|name| (s(name), s("k"))).collect(),
    }
}

fn unit() -> ShapeNode {
    ShapeNode::Group(vec![ShapeNode::Path(Bounds { left: 10, top: 5, right: 20, bottom: 15 })])
}

/// Answers every request: each drawing is `shape`, each viewport `view_box`.
fn run(master: &XmlElement, registry: &ThemeRegistry, view_box: &str) -> Result<Vec<(String, Vec<u8>)>, ExtractError> {
    let (mut state, mut request) = Extraction::start(master, registry)?;
    loop {
        let reply = match request {
            Request::Measure(_) => Reply::Shape(Some(unit())),
            Request::Frame(_) => Reply::Viewport(s(view_box)),
            Request::Finish => return Ok(state.into_documents()),
        };
        (state, request) = state.step(reply)?;
    }
}

fn names(documents: &[(String, Vec<u8>)]) -> Vec<&str> {
    documents.iter().map(|d| d.0.as_str()).collect()
}

const MASTER: &str = "<svg><defs><style>.a{fill:#808080;stroke:#fff}</style></defs>\
<g id=\"#icon-a\">label a<path class=\"a\" d=\"M10 5H20V15H10Z\"/></g>\
<g id=\"#ignoreme\"><path d=\"M0 0H1V1H0Z\"/></g>\
<g id=\"#guides\"><path d=\"M0 0H1V1H0Z\"/></g>\
<g id=\"#icon-b\"><g>label b<circle r=\"2\"/></g></g>\
<g><path d=\"M0 0\"/></g>\
<rect id=\"#icon-c\"/>\
<g id=\"#townspot-s-rev\"><path d=\"M1 1\"/></g>\
<g id=\"#capital-s\"><path d=\"M2 2\"/></g>\
</svg>";

#[test]
fn names_lose_their_first_character() {
    assert_eq!(resolve_icon_name("#icon-a"), Some(s("icon-a")));
    assert_eq!(resolve_icon_name("icon-a"), Some(s("con-a")));
    assert_eq!(resolve_icon_name("#"), Some(s("")));
    assert_eq!(resolve_icon_name("éa"), Some(s("a")));
    assert_eq!(resolve_icon_name(""), None);
}

#[test]
fn two_names_are_renamed() {
    assert_eq!(resolve_icon_name("#townspot-s-rev"), Some(s("townspot")));
    assert_eq!(resolve_icon_name("#capital-s"), Some(s("capital")));
    assert_eq!(resolve_icon_name("xtownspot-s-rev"), Some(s("townspot")));
    assert_eq!(resolve_icon_name("#capital-s2"), Some(s("capital-s2")));
    assert_eq!(resolve_icon_name("#townspot"), Some(s("townspot")));
}

#[test]
fn five_names_are_ignored() {
    for name in ["priority", "guides", "categories", "in_tiles_now", "add_to_tiles"] {
        assert!(is_ignored(&s(name)), "{name}");
    }
    for name in ["", "guide", "guides ", "Guides", "icon-a", "ignoreme"] {
        assert!(!is_ignored(&s(name)), "{name}");
    }
}

#[test]
fn only_registered_groups_are_extracted() {
    let master = parse_document(MASTER.as_bytes()).unwrap();
    let documents = run(&master, &registry(&["icon-a"]), "0 0 1 1").unwrap();
    assert_eq!(names(&documents), vec!["icon-a"]);
}

#[test]
fn ignored_names_are_dropped_even_when_registered() {
    let master = parse_document(MASTER.as_bytes()).unwrap();
    let documents = run(&master, &registry(&["guides", "icon-a", "priority"]), "0 0 1 1").unwrap();
    assert_eq!(names(&documents), vec!["icon-a"]);
}

#[test]
fn documents_come_in_the_order_of_the_master_document() {
    let master = parse_document(MASTER.as_bytes()).unwrap();
    let documents =
        run(&master, &registry(&["capital", "icon-b", "townspot", "icon-c", "icon-a"]), "0 0 1 1").unwrap();
    assert_eq!(names(&documents), vec!["icon-a", "icon-b", "townspot", "capital"]);
}

#[test]
fn nothing_registered_gives_nothing() {
    let master = parse_document(MASTER.as_bytes()).unwrap();
    let (state, request) = Extraction::start(&master, &registry(&[])).unwrap();
    assert!(matches!(request, Request::Finish));
    assert!(state.is_finished());
    assert!(state.into_documents().is_empty());
}

#[test]
fn a_master_document_without_definitions_is_refused() {
    let master = parse_document(b"<svg><g id=\"#icon-a\"><path d=\"M0 0\"/></g></svg>").unwrap();
    assert!(matches!(Extraction::start(&master, &registry(&["icon-a"])), Err(ExtractError::MissingDefinitions)));
    assert!(matches!(Extraction::start(&master, &registry(&[])), Err(ExtractError::MissingDefinitions)));
}

#[test]
fn a_registry_at_fault_stops_the_extraction() {
    let master = parse_document(MASTER.as_bytes()).unwrap();
    let mut r = registry(&["icon-a"]);
    r.icons.push((s("icon-b"), s("nowhere")));
    assert!(matches!(Extraction::start(&master, &r), Err(ExtractError::UnknownFlavor(name)) if name == "icon-b"));
    r.flavors.push((s("nowhere"), vec![s("#000000"), s("ffffff")]));
    assert!(matches!(Extraction::start(&master, &r), Err(ExtractError::MalformedColor(name)) if name == "icon-b"));
    r.icons.push((s("unused"), s("also nowhere")));
    r.flavors[2].1[1] = s("#ffffff");
    assert!(Extraction::start(&master, &r).is_ok());
}

#[test]
fn the_probe_document_holds_the_group_alone_without_its_text() {
    let master = parse_document(MASTER.as_bytes()).unwrap();
    let (_, request) = Extraction::start(&master, &registry(&["icon-a"])).unwrap();
    let Request::Measure(bytes) = request else { panic!("expected a request to measure") };
    assert_eq!(
        String::from_utf8(bytes).unwrap(),
        "<?xml version=\"1.0\" encoding=\"UTF-8\"?><svg xmlns=\"http://www.w3.org/2000/svg\">\
<g id=\"#icon-a\"><path class=\"a\" d=\"M10 5H20V15H10Z\" /></g></svg>"
    );
}

#[test]
fn the_icon_document_holds_viewport_definitions_and_group() {
    let master = parse_document(MASTER.as_bytes()).unwrap();
    let documents = run(&master, &registry(&["icon-a"]), "9.5 4.5 11 11").unwrap();
    assert_eq!(
        String::from_utf8(documents[0].1.clone()).unwrap(),
        "<?xml version=\"1.0\" encoding=\"UTF-8\"?>\
<svg viewBox=\"9.5 4.5 11 11\" xmlns=\"http://www.w3.org/2000/svg\">\
<defs><style>.a{fill:#808080;stroke:#ffffff}</style></defs>\
<g id=\"#icon-a\"><path class=\"a\" d=\"M10 5H20V15H10Z\" /></g></svg>"
    );
}

#[test]
fn the_style_text_is_recolored_for_the_flavor_of_the_icon() {
    let master = parse_document(MASTER.as_bytes()).unwrap();
    let mut r = registry(&["icon-a"]);
    r.icons.push((s("icon-b"), s("warm")));
    let documents = run(&master, &r, "0 0 1 1").unwrap();
    let cool = parse_document(&documents[0].1).unwrap();
    let warm = parse_document(&documents[1].1).unwrap();
    let style_text = |doc: &XmlElement| -> String {
        let XmlNode::Element(defs) = &doc.children[0] else { panic!("no definitions") };
        let XmlNode::Element(style) = &defs.children[0] else { panic!("no style") };
        let XmlNode::Text(text) = &style.children[0] else { panic!("no style text") };
        text.clone()
    };
    assert_eq!(style_text(&cool), ".a{fill:#808080;stroke:#ffffff}");
    assert_eq!(style_text(&warm), ".a{fill:#907060;stroke:#ffe0c0}");
}

#[test]
fn text_leaves_the_group_at_every_depth() {
    let master = parse_document(MASTER.as_bytes()).unwrap();
    let jobs = select_icons(&master, &registry(&["icon-b"])).unwrap();
    assert_eq!(jobs.len(), 1);
    assert_eq!(jobs[0].name, "icon-b");
    assert_eq!(
        String::from_utf8(serialize(&jobs[0].group).unwrap()).unwrap(),
        "<?xml version=\"1.0\" encoding=\"UTF-8\"?><g id=\"#icon-b\"><g><circle r=\"2\" /></g></g>"
    );
}

#[test]
fn the_bounds_of_the_drawing_are_handed_on() {
    let master = parse_document(MASTER.as_bytes()).unwrap();
    let (state, _) = Extraction::start(&master, &registry(&["icon-a"])).unwrap();
    let shape = ShapeNode::Group(vec![
        ShapeNode::Path(Bounds { left: 10, top: 5, right: 20, bottom: 15 }),
        ShapeNode::Other,
        ShapeNode::Group(vec![ShapeNode::Path(Bounds { left: 12, top: 1, right: 30, bottom: 9 })]),
    ]);
    let (_, request) = state.step(Reply::Shape(Some(shape))).unwrap();
    assert!(matches!(request, Request::Frame(Bounds { left: 10, top: 1, right: 30, bottom: 15 })));
}

#[test]
fn artwork_that_is_no_drawing_is_an_error() {
    let master = parse_document(MASTER.as_bytes()).unwrap();
    let (state, _) = Extraction::start(&master, &registry(&["icon-a"])).unwrap();
    assert!(matches!(state.step(Reply::Shape(None)), Err(ExtractError::UnparseableArtwork(name)) if name == "icon-a"));
}

#[test]
fn artwork_that_draws_nothing_is_an_error() {
    let master = parse_document(MASTER.as_bytes()).unwrap();
    let (state, _) = Extraction::start(&master, &registry(&["icon-b"])).unwrap();
    let empty = ShapeNode::Group(vec![ShapeNode::Other, ShapeNode::Group(vec![])]);
    assert!(matches!(state.step(Reply::Shape(Some(empty))), Err(ExtractError::EmptyArtwork(name)) if name == "icon-b"));
}

#[test]
fn a_reply_must_answer_the_open_request() {
    let master = parse_document(MASTER.as_bytes()).unwrap();
    let r = registry(&["icon-a"]);
    let (state, _) = Extraction::start(&master, &r).unwrap();
    assert!(matches!(state.step(Reply::Viewport(s("0 0 1 1"))), Err(ExtractError::UnexpectedReply)));
    let (state, _) = Extraction::start(&master, &r).unwrap();
    let (state, _) = state.step(Reply::Shape(Some(unit()))).unwrap();
    assert!(matches!(state.step(Reply::Shape(Some(unit()))), Err(ExtractError::UnexpectedReply)));
    let (state, _) = Extraction::start(&master, &r).unwrap();
    let (state, _) = state.step(Reply::Shape(Some(unit()))).unwrap();
    let (state, request) = state.step(Reply::Viewport(s("0 0 1 1"))).unwrap();
    assert!(matches!(request, Request::Finish));
    assert!(matches!(state.step(Reply::Shape(Some(unit()))), Err(ExtractError::UnexpectedReply)));
}

#[test]
fn the_same_input_gives_the_same_bytes() {
    let r = ThemeRegistry {
        flavors: vec![(s("k"), vec![s("#000000"), s("#ffffff")])],
        icons: vec![(s("icon-a"), s("k")), (s("icon-b"), s("k"))],
    };
    let source = MASTER.replace("<svg>", "<svg xmlns=\"http://www.w3.org/2000/svg\" xmlns:xlink=\"http://www.w3.org/1999/xlink\" width=\"10\" height=\"10\" version=\"1.1\">");
    let first = run(&parse_document(source.as_bytes()).unwrap(), &r, "9.5 4.5 11 11").unwrap();
    let second = run(&parse_document(source.as_bytes()).unwrap(), &r, "9.5 4.5 11 11").unwrap();
    assert_eq!(first.len(), 2);
    assert_eq!(first, second);
}

fn style_text(document: &[u8]) -> Vec<String> {
    let doc = parse_document(document).unwrap();
    let XmlNode::Element(defs) = &doc.children[0] else { panic!("no definitions") };
    let mut texts = Vec::new();
    for child in &defs.children {
        if let XmlNode::Element(e) = child {
            for node in &e.children {
                if let XmlNode::Text(text) = node {
                    texts.push(format!("{}:{}", e.name, text));
                }
            }
        }
    }
    texts
}

#[test]
fn only_the_first_text_of_the_first_style_is_recolored() {
    let master = parse_document(
        b"<svg><defs><title>#fff</title><style><!--c-->#fff<b/>#fff</style><style>#fff</style></defs>\
<g id=\"#icon-a\"><path d=\"M0 0\"/></g></svg>",
    )
    .unwrap();
    let documents = run(&master, &registry(&["icon-a"]), "0 0 1 1").unwrap();
    assert_eq!(
        style_text(&documents[0].1),
        vec!["title:#fff", "style:#ffffff", "style:#fff", "style:#fff"]
    );
}

#[test]
fn style_text_in_a_character_data_section_is_recolored() {
    let master = parse_document(
        b"<svg><defs><style><![CDATA[.a{fill:#000}]]></style></defs><g id=\"#icon-a\"><path d=\"M0 0\"/></g></svg>",
    )
    .unwrap();
    let documents = run(&master, &registry(&["icon-a"]), "0 0 1 1").unwrap();
    assert_eq!(style_text(&documents[0].1), vec!["style:.a{fill:#000000}"]);
}

#[test]
fn definitions_without_style_text_are_copied_as_they_are() {
    for defs in ["<defs/>", "<defs><style/></defs>", "<defs><style><b>#fff</b></style></defs>", "<defs><g><style>#fff</style></g></defs>"] {
        let source = format!("<svg>{defs}<g id=\"#icon-a\"><path d=\"M0 0\"/></g></svg>");
        let master = parse_document(source.as_bytes()).unwrap();
        let documents = run(&master, &registry(&["icon-a"]), "0 0 1 1").unwrap();
        let XmlNode::Element(expected) = &master.children[0] else { panic!("no definitions") };
        let written = String::from_utf8(documents[0].1.clone()).unwrap();
        let alone = String::from_utf8(serialize(expected).unwrap()).unwrap();
        let body = alone.strip_prefix("<?xml version=\"1.0\" encoding=\"UTF-8\"?>").unwrap();
        assert!(written.contains(body), "{written} lacks {body}");
    }
}

#[test]
fn the_first_definitions_element_is_the_one_that_counts() {
    let master = parse_document(
        b"<svg><g id=\"#icon-a\"><path d=\"M0 0\"/></g><defs><style>#000</style></defs><defs><style>#fff</style></defs></svg>",
    )
    .unwrap();
    let documents = run(&master, &registry(&["icon-a"]), "0 0 1 1").unwrap();
    assert_eq!(style_text(&documents[0].1), vec!["style:#000000"]);
}

#[test]
fn a_group_without_an_id_or_with_an_empty_one_is_passed_over() {
    let master = parse_document(
        b"<svg><defs/><g><path d=\"M0 0\"/></g><g id=\"\"><path d=\"M0 0\"/></g><g id=\"#\"><path d=\"M0 0\"/></g></svg>",
    )
    .unwrap();
    assert!(select_icons(&master, &registry(&["", "icon-a"])).unwrap().iter().map(|j| j.name.as_str()).eq([""]));
    assert!(select_icons(&master, &registry(&["icon-a"])).unwrap().is_empty());
}
