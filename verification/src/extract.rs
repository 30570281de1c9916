//! From the markup of one file to its icon: the `svg` element is found, its
//! presentation attributes are read, and its children are written as blocks.

use crate::attributes::FilterConfig;
use crate::dialect::{icon_name, Dialect, IconError, SourcePath};
use crate::markup::{
    attr_value, lemma_view_children, node_views, parse_markup, parsed_markup, Element,
    ElementModel, KindModel, MarkupNode, NodeKind, NodeModel, MAX_MARKUP_CHARS,
};
use crate::serialize::{indent_of, serialize, serialize_nodes};
use crate::text::text_eq;
use vstd::prelude::*;

verus! {

/// Whether `node` can be the root of an icon: an `svg` element with a child.
pub open spec fn is_svg_root(node: NodeModel) -> bool {
    node.children.len() > 0 && match node.kind {
        KindModel::Element(element) => element.name == "svg"@,
        _ => false,
    }
}

/// The first node in document order, among `node` and its descendants, that
/// can be the root of an icon.
pub open spec fn svg_root(node: NodeModel) -> Option<NodeModel>
    decreases node,
{
    if is_svg_root(node) {
        Some(node)
    } else {
        svg_root_among(node.children)
    }
}

/// The first node in document order, among `nodes` and their descendants,
/// that can be the root of an icon.
pub open spec fn svg_root_among(nodes: Seq<NodeModel>) -> Option<NodeModel>
    decreases nodes,
{
    if nodes.len() == 0 {
        None
    } else {
        match svg_root_among(nodes.drop_last()) {
            Some(root) => Some(root),
            None => svg_root(nodes.last()),
        }
    }
}

/// The first node in document order, among `node` and its descendants, that
/// is an `svg` element with a child.
pub fn find_svg_root(node: &MarkupNode) -> (r: Option<&MarkupNode>)
    ensures
        r is Some <==> svg_root(node@) is Some,
        r matches Some(root) ==> svg_root(node@) == Some(root@) && is_svg_root(root@),
    decreases node,
{
    proof {
        lemma_view_children(*node);
    }
    if node.children.len() > 0 {
        if let NodeKind::Element(element) = &node.kind {
            if text_eq(element.name.as_str(), "svg") {
                return Some(node);
            }
        }
    }
    let ghost nodes = node_views(node.children@);
    let mut i: usize = 0;
    assert(nodes.take(0) =~= Seq::<NodeModel>::empty());
    while i < node.children.len()
        invariant
            i <= node.children.len(),
            nodes == node_views(node.children@),
            nodes == node@.children,
            !is_svg_root(node@),
            svg_root_among(nodes.take(i as int)) is None,
        decreases node.children.len() - i,
    {
        assert(nodes.take(i + 1).drop_last() =~= nodes.take(i as int));
        assert(nodes.take(i + 1).last() == node.children@[i as int]@);
        let found = find_svg_root(&node.children[i]);
        if found.is_some() {
            proof {
                lemma_found_stays(nodes, i + 1);
            }
            return found;
        }
        i += 1;
    }
    assert(nodes.take(nodes.len() as int) =~= nodes);
    None
}

/// A root found among the first `k` of `nodes` is the one found among all.
proof fn lemma_found_stays(nodes: Seq<NodeModel>, k: int)
    requires
        0 <= k <= nodes.len(),
        svg_root_among(nodes.take(k)) is Some,
    ensures
        svg_root_among(nodes) == svg_root_among(nodes.take(k)),
    decreases nodes.len() - k,
{
    if k < nodes.len() {
        assert(nodes.take(k + 1).drop_last() =~= nodes.take(k));
        lemma_found_stays(nodes, k + 1);
    } else {
        assert(nodes.take(k) =~= nodes);
    }
}

/// The value of the first of `attrs` named `name`, or `default` where there
/// is none.
pub open spec fn attr_or(attrs: Seq<crate::markup::AttributeModel>, name: Seq<char>, default: Seq<
    char,
>) -> Seq<char> {
    match attr_value(attrs, name) {
        Some(value) => value,
        None => default,
    }
}

fn attr_or_default<'a>(element: &'a Element, name: &str, default: &'a str) -> (r: &'a str)
    ensures
        r@ == attr_or(element@.attrs, name@, default@),
{
    match element.attr(name) {
        Some(value) => value,
        None => default,
    }
}

/// The `viewBox` of the element, which it must have, and its `xmlns`, or the
/// namespace of SVG where it has none.
pub fn extract_svg_attrs<'a>(element: &'a Element) -> (r: Result<(&'a str, &'a str), IconError>)
    ensures
        match r {
            Ok((view_box, xmlns)) => {
                &&& attr_value(element@.attrs, "viewBox"@) == Some(view_box@)
                &&& xmlns@ == attr_or(element@.attrs, "xmlns"@, "http://www.w3.org/2000/svg"@)
            },
            Err(e) => e == IconError::MissingViewBox && attr_value(element@.attrs, "viewBox"@)
                is None,
        },
{
    match element.attr("viewBox") {
        Some(view_box) => Ok(
            (view_box, attr_or_default(element, "xmlns", "http://www.w3.org/2000/svg")),
        ),
        None => Err(IconError::MissingViewBox),
    }
}

/// The `fill` of the element, or `black`; its `stroke`, or `none`; its
/// `stroke-width`, or `1`.
pub fn extract_svg_colors<'a>(element: &'a Element) -> (r: (&'a str, &'a str, &'a str))
    ensures
        r.0@ == attr_or(element@.attrs, "fill"@, "black"@),
        r.1@ == attr_or(element@.attrs, "stroke"@, "none"@),
        r.2@ == attr_or(element@.attrs, "stroke-width"@, "1"@),
{
    (
        attr_or_default(element, "fill", "black"),
        attr_or_default(element, "stroke", "none"),
        attr_or_default(element, "stroke-width", "1"),
    )
}

/// The `width` of the element, or `300`; its `height`, or `150`.
pub fn extract_svg_dimensions<'a>(element: &'a Element) -> (r: (&'a str, &'a str))
    ensures
        r.0@ == attr_or(element@.attrs, "width"@, "300"@),
        r.1@ == attr_or(element@.attrs, "height"@, "150"@),
{
    (attr_or_default(element, "width", "300"), attr_or_default(element, "height", "150"))
}

/// The `stroke-linecap` of the element, or `butt`.
pub fn extract_svg_stroke_linecap<'a>(element: &'a Element) -> (r: &'a str)
    ensures
        r@ == attr_or(element@.attrs, "stroke-linecap"@, "butt"@),
{
    attr_or_default(element, "stroke-linecap", "butt")
}

/// The `stroke-linejoin` of the element, or `miter`.
pub fn extract_svg_stroke_linejoin<'a>(element: &'a Element) -> (r: &'a str)
    ensures
        r@ == attr_or(element@.attrs, "stroke-linejoin"@, "miter"@),
{
    attr_or_default(element, "stroke-linejoin", "miter")
}

/// The icon of one file.
#[derive(Debug, PartialEq, Eq)]
pub struct ExtractedIcon {
    pub name: String,
    pub view_box: String,
    pub width: String,
    pub height: String,
    pub xmlns: String,
    pub fill: String,
    pub stroke: String,
    pub stroke_width: String,
    pub stroke_linecap: String,
    pub stroke_linejoin: String,
    pub title: String,
    pub body: String,
}

/// What an `ExtractedIcon` is, as mathematics.
pub struct IconModel {
    pub name: Seq<char>,
    pub view_box: Seq<char>,
    pub width: Seq<char>,
    pub height: Seq<char>,
    pub xmlns: Seq<char>,
    pub fill: Seq<char>,
    pub stroke: Seq<char>,
    pub stroke_width: Seq<char>,
    pub stroke_linecap: Seq<char>,
    pub stroke_linejoin: Seq<char>,
    pub title: Seq<char>,
    pub body: Seq<char>,
}

impl View for ExtractedIcon {
    type V = IconModel;

    open spec fn view(&self) -> IconModel {
        IconModel {
            name: self.name@,
            view_box: self.view_box@,
            width: self.width@,
            height: self.height@,
            xmlns: self.xmlns@,
            fill: self.fill@,
            stroke: self.stroke@,
            stroke_width: self.stroke_width@,
            stroke_linecap: self.stroke_linecap@,
            stroke_linejoin: self.stroke_linejoin@,
            title: self.title@,
            body: self.body@,
        }
    }
}

/// The icon with the name `name` whose root is `root`, an element with the
/// attributes of `element` and the `viewBox` `view_box`: each presentation
/// attribute as the element has it, or its default; the title and the blocks
/// that the children of `root` give at depth 0.
pub open spec fn icon_of_root(
    name: Seq<char>,
    root: NodeModel,
    element: ElementModel,
    view_box: Seq<char>,
    dialect: Dialect,
    config: FilterConfig,
) -> IconModel {
    let rendering = serialize_nodes(root.children, indent_of(0), dialect, config);
    IconModel {
        name,
        view_box,
        width: attr_or(element.attrs, "width"@, "300"@),
        height: attr_or(element.attrs, "height"@, "150"@),
        xmlns: attr_or(element.attrs, "xmlns"@, "http://www.w3.org/2000/svg"@),
        fill: attr_or(element.attrs, "fill"@, "black"@),
        stroke: attr_or(element.attrs, "stroke"@, "none"@),
        stroke_width: attr_or(element.attrs, "stroke-width"@, "1"@),
        stroke_linecap: attr_or(element.attrs, "stroke-linecap"@, "butt"@),
        stroke_linejoin: attr_or(element.attrs, "stroke-linejoin"@, "miter"@),
        title: rendering.title,
        body: rendering.body,
    }
}

/// The icon of the file at `path` whose markup is `tree`, for the icon set
/// with the prefix `prefix`; or why there is none. A tree without root for an
/// icon gives `NoSvgRoot`; then a path that gives no name gives the error of
/// the name; then a root without `viewBox` gives `MissingViewBox`. The icon
/// is named by the prefix and then the name that the path gives.
pub open spec fn extracted_icon(
    tree: NodeModel,
    path: Seq<Seq<char>>,
    prefix: Seq<char>,
    config: FilterConfig,
) -> Result<IconModel, IconError> {
    let dialect = Dialect::of_prefix(prefix);
    match svg_root(tree) {
        None => Err(IconError::NoSvgRoot),
        Some(root) => match dialect.icon_name_spec(path) {
            Err(e) => Err(e),
            Ok(name) => {
                let element = root.kind->Element_0;
                match attr_value(element.attrs, "viewBox"@) {
                    None => Err(IconError::MissingViewBox),
                    Some(view_box) => Ok(
                        icon_of_root(prefix + name, root, element, view_box, dialect, config),
                    ),
                }
            },
        },
    }
}

/// Whether `r` is the result `expected`, each string taken by its characters.
pub open spec fn is_icon_result(r: Result<ExtractedIcon, IconError>, expected: Result<
    IconModel,
    IconError,
>) -> bool {
    match (r, expected) {
        (Ok(icon), Ok(model)) => icon@ == model,
        (Err(e), Err(f)) => e == f,
        _ => false,
    }
}

/// The icon of the file at `path` whose markup is `tree`, for the icon set
/// with the prefix `icon_prefix`.
pub fn extract_icon(
    tree: &MarkupNode,
    path: &SourcePath,
    icon_prefix: &str,
    config: &FilterConfig,
) -> (r: Result<ExtractedIcon, IconError>)
    ensures
        is_icon_result(r, extracted_icon(tree@, path@, icon_prefix@, *config)),
{
    let root = match find_svg_root(tree) {
        Some(root) => root,
        None => {
            return Err(IconError::NoSvgRoot);
        },
    };
    proof {
        lemma_view_children(*root);
    }
    let base = match icon_name(path, icon_prefix) {
        Ok(base) => base,
        Err(e) => {
            return Err(e);
        },
    };
    match &root.kind {
        NodeKind::Element(element) => {
            let (view_box, xmlns) = match extract_svg_attrs(element) {
                Ok(pair) => pair,
                Err(e) => {
                    return Err(e);
                },
            };
            let (width, height) = extract_svg_dimensions(element);
            let (fill, stroke, stroke_width) = extract_svg_colors(element);
            let stroke_linecap = extract_svg_stroke_linecap(element);
            let stroke_linejoin = extract_svg_stroke_linejoin(element);
            let rendering = serialize(root, 0, icon_prefix, config);
            let mut name = String::from_str(icon_prefix);
            name.append(base.as_str());
            Ok(
                ExtractedIcon {
                    name,
                    view_box: String::from_str(view_box),
                    width: String::from_str(width),
                    height: String::from_str(height),
                    xmlns: String::from_str(xmlns),
                    fill: String::from_str(fill),
                    stroke: String::from_str(stroke),
                    stroke_width: String::from_str(stroke_width),
                    stroke_linecap: String::from_str(stroke_linecap),
                    stroke_linejoin: String::from_str(stroke_linejoin),
                    title: rendering.title,
                    body: rendering.body,
                },
            )
        },
        _ => {
            assert(false);
            Err(IconError::NoSvgRoot)
        },
    }
}

/// The icon of the file at `path` with the text `content`: that of the tree
/// which the parser makes of the text. A text of more than
/// `MAX_MARKUP_CHARS` characters gives `MarkupTooLong`; a text of which the
/// parser makes no single tree gives `MalformedMarkup`.
pub open spec fn icon_of_markup(
    content: Seq<char>,
    path: Seq<Seq<char>>,
    prefix: Seq<char>,
    config: FilterConfig,
) -> Result<IconModel, IconError> {
    if content.len() > MAX_MARKUP_CHARS {
        Err(IconError::MarkupTooLong)
    } else {
        match parsed_markup(content) {
            Some(tree) => extracted_icon(tree, path, prefix, config),
            None => Err(IconError::MalformedMarkup),
        }
    }
}

/// The icon of the file at `path` with the text `content`, for the icon set
/// with the prefix `icon_prefix`.
pub fn parse_and_extract(
    content: &str,
    path: &SourcePath,
    icon_prefix: &str,
    config: &FilterConfig,
) -> (r: Result<ExtractedIcon, IconError>)
    ensures
        is_icon_result(r, icon_of_markup(content@, path@, icon_prefix@, *config)),
{
    if content.unicode_len() > MAX_MARKUP_CHARS {
        return Err(IconError::MarkupTooLong);
    }
    match parse_markup(content) {
        Some(tree) => extract_icon(&tree, path, icon_prefix, config),
        None => Err(IconError::MalformedMarkup),
    }
}

} // verus!
