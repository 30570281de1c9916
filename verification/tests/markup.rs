use icon_codegen::markup::{
    build_tree, parse_markup, Attribute, Element, MarkupEvent, MarkupNode, NodeKind,
    MAX_MARKUP_CHARS,
};

fn open_element(name: &str) -> MarkupEvent {
    MarkupEvent::Open(NodeKind::Element(Element { name: name.to_string(), attrs: Vec::new() }))
}

fn open_text(text: &str) -> MarkupEvent {
    MarkupEvent::Open(NodeKind::Text(text.to_string()))
}

fn name_of(node: &MarkupNode) -> Option<&str> {
    match &node.kind {
        NodeKind::Element(element) => Some(element.name.as_str()),
        _ => None,
    }
}

fn text_of(node: &MarkupNode) -> Option<&str> {
    match &node.kind {
        NodeKind::Text(text) => Some(text.as_str()),
        _ => None,
    }
}

fn attrs_of(node: &MarkupNode) -> Vec<(String, String)> {
    match &node.kind {
        NodeKind::Element(element) => {
            element.attrs.iter().map(|a| (a.name.clone(), a.value.clone())).collect()
        },
        _ => Vec::new(),
    }
}

fn svg_of(tree: &MarkupNode) -> &MarkupNode {
    assert!(matches!(tree.kind, NodeKind::Other));
    assert_eq!(tree.children.len(), 1);
    let html = &tree.children[0];
    assert_eq!(name_of(html), Some("html"));
    assert_eq!(html.children.len(), 1);
    let svg = &html.children[0];
    assert_eq!(name_of(svg), Some("svg"));
    svg
}

#[test]
fn build_tree_nests_the_nodes_as_the_events_do() {
    let events = vec![
        MarkupEvent::Open(NodeKind::Other),
        open_element("svg"),
        open_element("g"),
        open_element("path"),
        MarkupEvent::Close,
        open_text("x"),
        MarkupEvent::Close,
        MarkupEvent::Close,
        open_element("circle"),
        MarkupEvent::Close,
        MarkupEvent::Close,
        MarkupEvent::Close,
    ];
    let tree = build_tree(events).expect("the events are well nested");
    assert!(matches!(tree.kind, NodeKind::Other));
    assert_eq!(tree.children.len(), 1);
    let svg = &tree.children[0];
    assert_eq!(name_of(svg), Some("svg"));
    assert_eq!(svg.children.len(), 2);
    let g = &svg.children[0];
    assert_eq!(name_of(g), Some("g"));
    assert_eq!(g.children.len(), 2);
    assert_eq!(name_of(&g.children[0]), Some("path"));
    assert_eq!(g.children[0].children.len(), 0);
    assert_eq!(text_of(&g.children[1]), Some("x"));
    assert_eq!(name_of(&svg.children[1]), Some("circle"));
    assert_eq!(svg.children[1].children.len(), 0);
}

#[test]
fn build_tree_of_one_node() {
    let tree = build_tree(vec![open_element("svg"), MarkupEvent::Close]).expect("one node");
    assert_eq!(name_of(&tree), Some("svg"));
    assert_eq!(tree.children.len(), 0);
}

#[test]
fn build_tree_refuses_what_is_no_walk_through_one_tree() {
    assert!(build_tree(Vec::new()).is_none());
    assert!(build_tree(vec![MarkupEvent::Close]).is_none());
    assert!(build_tree(vec![open_element("a")]).is_none());
    assert!(build_tree(vec![open_element("a"), open_element("b"), MarkupEvent::Close]).is_none());
    assert!(build_tree(vec![open_element("a"), MarkupEvent::Close, MarkupEvent::Close]).is_none());
    assert!(build_tree(vec![
        open_element("a"),
        MarkupEvent::Close,
        open_element("b"),
        MarkupEvent::Close
    ])
    .is_none());
    assert!(build_tree(vec![MarkupEvent::Close, open_element("a")]).is_none());
}

#[test]
fn parse_markup_reads_elements_and_attributes() {
    let tree =
        parse_markup("<svg viewBox=\"0 0 24 24\" fill=\"none\"><path d=\"M0 0\"/></svg>").unwrap();
    let svg = svg_of(&tree);
    assert_eq!(
        attrs_of(svg),
        vec![
            ("fill".to_string(), "none".to_string()),
            ("viewBox".to_string(), "0 0 24 24".to_string()),
        ]
    );
    assert_eq!(svg.children.len(), 1);
    let path = &svg.children[0];
    assert_eq!(name_of(path), Some("path"));
    assert_eq!(attrs_of(path), vec![("d".to_string(), "M0 0".to_string())]);
    assert_eq!(path.children.len(), 0);
}

#[test]
fn parse_markup_reads_text_and_nesting() {
    let tree = parse_markup(
        "<svg viewBox=\"0 0 1 1\"><title>Home</title><g id=\"a\"><circle r=\"1\"/> </g></svg>",
    )
    .unwrap();
    let svg = svg_of(&tree);
    assert_eq!(svg.children.len(), 2);
    let title = &svg.children[0];
    assert_eq!(name_of(title), Some("title"));
    assert_eq!(title.children.len(), 1);
    assert_eq!(text_of(&title.children[0]), Some("Home"));
    let g = &svg.children[1];
    assert_eq!(name_of(g), Some("g"));
    assert_eq!(attrs_of(g), vec![("id".to_string(), "a".to_string())]);
    assert_eq!(g.children.len(), 2);
    assert_eq!(name_of(&g.children[0]), Some("circle"));
    assert_eq!(text_of(&g.children[1]), Some(" "));
}

#[test]
fn parse_markup_keeps_comments_as_other_nodes() {
    let tree = parse_markup("<svg viewBox=\"0 0 1 1\"><!-- note --><path/></svg>").unwrap();
    let svg = svg_of(&tree);
    assert_eq!(svg.children.len(), 2);
    assert!(matches!(svg.children[0].kind, NodeKind::Other));
    assert_eq!(name_of(&svg.children[1]), Some("path"));
}

#[test]
fn parse_markup_of_an_empty_text_is_a_bare_root() {
    let tree = parse_markup("").unwrap();
    assert!(matches!(tree.kind, NodeKind::Other));
    for child in &tree.children {
        assert_eq!(name_of(child), Some("html"));
        assert_eq!(child.children.len(), 0);
    }
}

#[test]
fn attr_gives_the_first_value_under_the_name() {
    let element = Element {
        name: "svg".to_string(),
        attrs: vec![
            Attribute { name: "fill".to_string(), value: "red".to_string() },
            Attribute { name: "viewBox".to_string(), value: "0 0 1 1".to_string() },
            Attribute { name: "fill".to_string(), value: "blue".to_string() },
            Attribute { name: "stroke".to_string(), value: "".to_string() },
        ],
    };
    assert_eq!(element.attr("fill"), Some("red"));
    assert_eq!(element.attr("viewBox"), Some("0 0 1 1"));
    assert_eq!(element.attr("stroke"), Some(""));
    assert_eq!(element.attr("viewbox"), None);
    assert_eq!(element.attr("width"), None);
    assert_eq!(element.attr(""), None);
}

#[test]
fn the_bound_on_the_text_keeps_the_parser_from_its_limits() {
    assert_eq!(MAX_MARKUP_CHARS, 134_217_728);
    // Four bytes a character, and three written for one read, stay below 2^31.
    assert!((MAX_MARKUP_CHARS as u64) * 4 * 3 < (1u64 << 31));
}

#[test]
fn parse_markup_refuses_a_text_beyond_the_bound() {
    let mut text = String::from("<svg viewBox=\"0 0 1 1\"><path/></svg>");
    let padding = MAX_MARKUP_CHARS + 1 - text.len();
    text.push_str(&" ".repeat(padding));
    assert_eq!(text.chars().count(), MAX_MARKUP_CHARS + 1);
    assert!(parse_markup(&text).is_none());
}
