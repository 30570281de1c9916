use icon_codegen::attributes::FilterConfig;
use icon_codegen::dialect::Dialect;
use icon_codegen::markup::{Attribute, Element, MarkupNode, NodeKind};
use icon_codegen::serialize::{
    children_are_elements, extract_svg_child_nodes, extract_svg_node, indentation, serialize,
};

fn el(name: &str, attrs: &[(&str, &str)], children: Vec<MarkupNode>) -> MarkupNode {
    MarkupNode {
        kind: NodeKind::Element(Element {
            name: name.to_string(),
            attrs: attrs
                .iter()
                .map(|(n, v)| Attribute { name: n.to_string(), value: v.to_string() })
                .collect(),
        }),
        children,
    }
}

fn txt(text: &str) -> MarkupNode {
    MarkupNode { kind: NodeKind::Text(text.to_string()), children: Vec::new() }
}

fn other() -> MarkupNode {
    MarkupNode { kind: NodeKind::Other, children: Vec::new() }
}

fn sp(n: usize) -> String {
    " ".repeat(n)
}

fn run(children: Vec<MarkupNode>) -> (String, String) {
    let root = el("svg", &[], children);
    let r = serialize(&root, 0, "Fa", &FilterConfig::default());
    (r.title, r.body)
}

#[test]
fn indentation_is_twelve_spaces_and_four_for_each_level() {
    assert_eq!(indentation(0), sp(12));
    assert_eq!(indentation(1), sp(16));
    assert_eq!(indentation(3), sp(24));
}

#[test]
fn children_are_elements_looks_for_one_element() {
    assert!(!children_are_elements(&Vec::new()));
    assert!(!children_are_elements(&vec![txt("a"), other()]));
    assert!(children_are_elements(&vec![txt("a"), el("path", &[], Vec::new())]));
    assert!(children_are_elements(&vec![el("path", &[], Vec::new()), txt("a")]));
    // An element further down does not count.
    assert!(!children_are_elements(&vec![MarkupNode {
        kind: NodeKind::Other,
        children: vec![el("path", &[], Vec::new())],
    }]));
}

#[test]
fn an_element_gives_a_block_with_its_lines() {
    let (title, body) = run(vec![el("path", &[("stroke-width", "2"), ("d", "M0 0")], Vec::new())]);
    assert_eq!(title, "");
    assert_eq!(
        body,
        "            path {\n                d: \"M0 0\",\n                stroke_width: \"2\",\n            }\n"
    );
}

#[test]
fn an_element_without_kept_attributes_gives_a_bare_block() {
    let (_, body) = run(vec![el("defs", &[], Vec::new())]);
    assert_eq!(body, "            defs {\n            }\n");
    let (_, body) = run(vec![el("path", &[("data-name", "x"), ("d", "")], Vec::new())]);
    assert_eq!(body, "            path {\n            }\n");
}

#[test]
fn text_and_other_nodes_give_nothing() {
    let (title, body) = run(vec![txt("\n  "), other(), txt("stray")]);
    assert_eq!(title, "");
    assert_eq!(body, "");
    let (title, body) = run(Vec::new());
    assert_eq!(title, "");
    assert_eq!(body, "");
}

#[test]
fn an_empty_line_parts_attributes_and_children() {
    let (_, body) = run(vec![el(
        "mask",
        &[("id", "m")],
        vec![el("rect", &[("width", "4")], Vec::new())],
    )]);
    let expected = format!(
        "{i}mask {{\n{j}id: \"m\",\n\n{j}rect {{\n{k}width: \"4\",\n{j}}}\n{i}}}\n",
        i = sp(12),
        j = sp(16),
        k = sp(20)
    );
    assert_eq!(body, expected);
    // The attributes count as they are read, also where none is kept.
    let (_, body) = run(vec![el("text", &[("data-x", "1")], vec![txt("hello")])]);
    assert_eq!(body, format!("{i}text {{\n\n{i}}}\n", i = sp(12)));
    // Without attributes there is no empty line.
    let (_, body) = run(vec![el("defs", &[], vec![el("path", &[], Vec::new())])]);
    assert_eq!(body, format!("{i}defs {{\n{j}path {{\n{j}}}\n{i}}}\n", i = sp(12), j = sp(16)));
}

#[test]
fn a_group_without_kept_attributes_is_flattened() {
    let path = || el("path", &[("d", "M0 0")], Vec::new());
    let (_, flat) = run(vec![el("g", &[], vec![path()])]);
    let (_, direct) = run(vec![path()]);
    assert_eq!(flat, direct);
    assert_eq!(flat, format!("{i}path {{\n{j}d: \"M0 0\",\n{i}}}\n", i = sp(12), j = sp(16)));
    assert!(!flat.contains("g {"));
    // Attributes of which none is kept do not make a block either.
    let (_, body) = run(vec![el("g", &[("data-name", "layer"), ("id", "")], vec![path()])]);
    assert_eq!(body, direct);
    // Groups in groups are flattened one after the other.
    let (_, body) = run(vec![el("g", &[], vec![el("g", &[], vec![path()]), path()])]);
    assert_eq!(body, format!("{d}{d}", d = direct));
}

#[test]
fn a_group_without_element_children_is_flattened() {
    let (_, body) = run(vec![el("g", &[("stroke", "red")], vec![txt("only text")])]);
    assert_eq!(body, "");
    let (_, body) = run(vec![el("g", &[("stroke", "red")], Vec::new())]);
    assert_eq!(body, "");
}

#[test]
fn a_group_with_a_kept_attribute_keeps_its_block() {
    let (title, body) = run(vec![el(
        "g",
        &[("stroke", "red")],
        vec![el("path", &[("d", "M0 0")], Vec::new())],
    )]);
    assert_eq!(title, "");
    assert_eq!(
        body,
        "            g {\n                stroke: \"red\",\n                path {\n                    d: \"M0 0\",\n                }\n            }\n"
    );
}

#[test]
fn a_kept_group_has_no_empty_line() {
    let (_, body) = run(vec![el(
        "g",
        &[("fill", "none"), ("stroke", "red")],
        vec![txt("\n"), el("circle", &[], Vec::new())],
    )]);
    let expected = format!(
        "{i}g {{\n{j}fill: \"none\",\n{j}stroke: \"red\",\n{j}circle {{\n{j}}}\n{i}}}\n",
        i = sp(12),
        j = sp(16)
    );
    assert_eq!(body, expected);
}

#[test]
fn the_first_title_wins() {
    let (title, body) = run(vec![
        el("g", &[], vec![el("title", &[], vec![txt("First")]), el("path", &[], Vec::new())]),
        el("title", &[], vec![txt("Second")]),
        el("g", &[("stroke", "red")], vec![el("title", &[], vec![txt("Third")])]),
    ]);
    assert_eq!(title, "First");
    assert!(!body.contains("First"));
    assert!(!body.contains("Second"));
    assert!(!body.contains("Third"));
    assert!(!body.contains("title"));
    let expected = format!("{i}path {{\n{i}}}\n{i}g {{\n{j}stroke: \"red\",\n{i}}}\n", i = sp(12), j = sp(16));
    assert_eq!(body, expected);
}

#[test]
fn a_deeper_title_wins_where_it_comes_first() {
    let (title, _) = run(vec![
        el("defs", &[], vec![el("symbol", &[], vec![el("title", &[], vec![txt("Deep")])])]),
        el("title", &[], vec![txt("Shallow")]),
    ]);
    assert_eq!(title, "Deep");
    let (title, _) = run(vec![
        el("title", &[], vec![txt("Shallow")]),
        el("defs", &[], vec![el("symbol", &[], vec![el("title", &[], vec![txt("Deep")])])]),
    ]);
    assert_eq!(title, "Shallow");
}

#[test]
fn a_title_is_the_text_of_its_first_child() {
    let (title, body) = run(vec![el("title", &[("id", "t")], vec![txt(" Home "), txt("more")])]);
    assert_eq!(title, " Home ");
    assert_eq!(body, "");
    // A first child that is no text gives no title; the next title is taken.
    let (title, _) = run(vec![
        el("title", &[], vec![el("tspan", &[], Vec::new()), txt("late")]),
        el("title", &[], vec![txt("Next")]),
    ]);
    assert_eq!(title, "Next");
    // So does a title without children, and one whose text is empty.
    let (title, _) = run(vec![
        el("title", &[], Vec::new()),
        el("title", &[], vec![txt("")]),
        el("title", &[], vec![txt("Next")]),
    ]);
    assert_eq!(title, "Next");
}

#[test]
fn the_children_of_a_title_give_no_blocks() {
    let (title, body) = run(vec![el(
        "title",
        &[],
        vec![txt("T"), el("path", &[("d", "M0")], Vec::new())],
    )]);
    assert_eq!(title, "T");
    assert_eq!(body, "");
}

#[test]
fn serialize_indents_by_the_depth() {
    let root = el("svg", &[], vec![el("path", &[("d", "M0")], Vec::new())]);
    let r = serialize(&root, 2, "Fa", &FilterConfig::default());
    assert_eq!(r.body, format!("{i}path {{\n{j}d: \"M0\",\n{i}}}\n", i = sp(20), j = sp(24)));
    assert_eq!(r.title, "");
}

#[test]
fn serialize_follows_the_dialect() {
    let root = el(
        "svg",
        &[],
        vec![el("path", &[("style", "fill:none;stroke:#000;"), ("d", "M0")], Vec::new())],
    );
    let io = serialize(&root, 0, "Io", &FilterConfig::default());
    assert_eq!(io.body, format!("{i}path {{\n{j}d: \"M0\",\n{i}}}\n", i = sp(12), j = sp(16)));
    let fa = serialize(&root, 0, "Fa", &FilterConfig::default());
    assert_eq!(
        fa.body,
        format!(
            "{i}path {{\n{j}d: \"M0\",\n{j}style: \"fill:none;stroke:#000;\",\n{i}}}\n",
            i = sp(12),
            j = sp(16)
        )
    );
}

#[test]
fn extract_svg_child_nodes_adds_to_what_is_there() {
    let children = vec![
        el("title", &[], vec![txt("New")]),
        el("path", &[("d", "M0")], Vec::new()),
    ];
    let mut title = String::from("Old");
    let mut result = String::from("before\n");
    extract_svg_child_nodes(
        "  ",
        &children,
        &mut title,
        &mut result,
        Dialect::Generic,
        &FilterConfig::default(),
    );
    assert_eq!(title, "Old");
    assert_eq!(result, "before\n  path {\n      d: \"M0\",\n  }\n");
    let mut title = String::new();
    let mut result = String::new();
    extract_svg_child_nodes(
        "",
        &children,
        &mut title,
        &mut result,
        Dialect::Generic,
        &FilterConfig::default(),
    );
    assert_eq!(title, "New");
    assert_eq!(result, "path {\n    d: \"M0\",\n}\n");
}

#[test]
fn extract_svg_node_writes_one_node() {
    let node = el("g", &[("id", "a")], vec![el("path", &[], Vec::new())]);
    let mut title = String::new();
    let mut result = String::new();
    extract_svg_node("", &node, &mut title, &mut result, Dialect::Generic, &FilterConfig::default());
    assert_eq!(result, "g {\n    id: \"a\",\n    path {\n    }\n}\n");
    let mut config = FilterConfig::default();
    config.strip_id = true;
    let mut result = String::new();
    extract_svg_node("", &node, &mut title, &mut result, Dialect::Generic, &config);
    assert_eq!(result, "path {\n}\n");
    let mut result = String::new();
    extract_svg_node("", &txt("x"), &mut title, &mut result, Dialect::Generic, &config);
    assert_eq!(result, "");
    assert_eq!(title, "");
}
