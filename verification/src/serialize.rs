//! The drawable part of an icon, written as nested blocks of generated code.

use crate::attributes::{attribute_lines, attribute_lines_spec, FilterConfig};
use crate::dialect::Dialect;
use crate::markup::{node_views, lemma_view_children, KindModel, MarkupNode, NodeKind, NodeModel};
use crate::text::{text_eq, text_views};
use vstd::prelude::*;

verus! {

/// What a part of the tree gives: the title found in it, empty where there
/// is none, and the text of its blocks.
#[derive(Debug, PartialEq, Eq)]
pub struct Rendering {
    pub title: String,
    pub body: String,
}

/// What a `Rendering` is, as mathematics.
pub struct RenderingModel {
    pub title: Seq<char>,
    pub body: Seq<char>,
}

impl View for Rendering {
    type V = RenderingModel;

    open spec fn view(&self) -> RenderingModel {
        RenderingModel { title: self.title@, body: self.body@ }
    }
}

/// The indentation of the blocks at `depth`: twelve spaces, and four more
/// for each level.
pub open spec fn indent_of(depth: nat) -> Seq<char>
    decreases depth,
{
    if depth == 0 {
        "            "@
    } else {
        "    "@ + indent_of((depth - 1) as nat)
    }
}

/// The title that holds after two parts of the tree, one after the other:
/// that of the first part, and that of the second only where the first has
/// none.
pub open spec fn first_title(earlier: Seq<char>, later: Seq<char>) -> Seq<char> {
    if earlier.len() > 0 {
        earlier
    } else {
        later
    }
}

/// The text of a title element: that of its first child, where that is a run
/// of text.
pub open spec fn title_text(node: NodeModel) -> Seq<char> {
    if node.children.len() > 0 {
        match node.children[0].kind {
            KindModel::Text(text) => text,
            _ => Seq::empty(),
        }
    } else {
        Seq::empty()
    }
}

/// Whether one of `nodes` is an element.
pub open spec fn has_element_child(nodes: Seq<NodeModel>) -> bool {
    exists|i: int| 0 <= i < nodes.len() && #[trigger] nodes[i].kind is Element
}

/// The lines of a block's attributes, each indented one level below the
/// block and ended by a line feed.
pub open spec fn attribute_block(lines: Seq<Seq<char>>, indent: Seq<char>) -> Seq<char>
    decreases lines.len(),
{
    if lines.len() == 0 {
        Seq::empty()
    } else {
        attribute_block(lines.drop_last(), indent) + indent + "    "@ + lines.last() + "\n"@
    }
}

/// A block: the line that opens it under `name`, the lines of its attributes,
/// an empty line where `separated`, what is nested in it, and the line that
/// closes it.
pub open spec fn block(
    name: Seq<char>,
    lines: Seq<Seq<char>>,
    indent: Seq<char>,
    separated: bool,
    nested: Seq<char>,
) -> Seq<char> {
    indent + name + " {\n"@ + attribute_block(lines, indent) + (if separated {
        "\n"@
    } else {
        Seq::empty()
    }) + nested + indent + "}\n"@
}

/// What the nodes give, one after the other, at the indentation `indent`.
pub open spec fn serialize_nodes(
    nodes: Seq<NodeModel>,
    indent: Seq<char>,
    dialect: Dialect,
    config: FilterConfig,
) -> RenderingModel
    decreases nodes,
{
    if nodes.len() == 0 {
        RenderingModel { title: Seq::empty(), body: Seq::empty() }
    } else {
        let earlier = serialize_nodes(nodes.drop_last(), indent, dialect, config);
        let last = serialize_node(nodes.last(), indent, dialect, config);
        RenderingModel {
            title: first_title(earlier.title, last.title),
            body: earlier.body + last.body,
        }
    }
}

/// What one node gives at the indentation `indent`.
///
/// A node that is no element gives nothing. A `title` element gives its text
/// as the title, and no block. A `g` element with at least one line of
/// attributes and at least one element among its children gives a block that
/// holds those lines and, one level deeper, what its children give; any other
/// `g` gives what its children give at `indent`, without a block. Any other
/// element gives a block with its lines and, one level deeper, what its
/// children give, with an empty line between the two where the element has
/// attributes and children.
pub open spec fn serialize_node(
    node: NodeModel,
    indent: Seq<char>,
    dialect: Dialect,
    config: FilterConfig,
) -> RenderingModel
    decreases node,
{
    match node.kind {
        KindModel::Element(element) => {
            if element.name == "title"@ {
                RenderingModel { title: title_text(node), body: Seq::empty() }
            } else {
                let lines = attribute_lines_spec(element, dialect, config);
                let is_group = element.name == "g"@;
                if is_group && !(lines.len() > 0 && has_element_child(node.children)) {
                    serialize_nodes(node.children, indent, dialect, config)
                } else {
                    let nested = serialize_nodes(node.children, "    "@ + indent, dialect, config);
                    let separated = !is_group && element.attrs.len() > 0 && node.children.len()
                        > 0;
                    RenderingModel {
                        title: nested.title,
                        body: block(element.name, lines, indent, separated, nested.body),
                    }
                }
            }
        },
        _ => RenderingModel { title: Seq::empty(), body: Seq::empty() },
    }
}

/// Whether one of `children` is an element.
pub fn children_are_elements(children: &Vec<MarkupNode>) -> (b: bool)
    ensures
        b == has_element_child(node_views(children@)),
{
    let mut i: usize = 0;
    while i < children.len()
        invariant
            i <= children.len(),
            forall|j: int| 0 <= j < i ==> !(#[trigger] node_views(children@)[j].kind is Element),
        decreases children.len() - i,
    {
        proof {
            lemma_view_children(children@[i as int]);
        }
        if let NodeKind::Element(_) = &children[i].kind {
            assert(node_views(children@)[i as int].kind is Element);
            return true;
        }
        i += 1;
    }
    false
}

fn append_attribute_block(result: &mut String, indent: &str, lines: &Vec<String>)
    ensures
        final(result)@ == old(result)@ + attribute_block(text_views(lines@), indent@),
{
    let ghost all = text_views(lines@);
    let ghost start = result@;
    let mut i: usize = 0;
    assert(all.take(0) =~= Seq::<Seq<char>>::empty());
    assert(result@ =~= start + attribute_block(all.take(0), indent@));
    while i < lines.len()
        invariant
            i <= lines.len(),
            all == text_views(lines@),
            result@ == start + attribute_block(all.take(i as int), indent@),
        decreases lines.len() - i,
    {
        assert(all.take(i + 1).drop_last() =~= all.take(i as int));
        assert(all.take(i + 1).last() == lines@[i as int]@);
        let ghost before = result@;
        result.append(indent);
        result.append("    ");
        result.append(lines[i].as_str());
        result.append("\n");
        assert(result@ =~= start + attribute_block(all.take(i + 1), indent@));
        i += 1;
    }
    assert(all.take(all.len() as int) =~= all);
}

/// Adds to `title` and `result` what `children` give at the indentation
/// `indent`: the title only where `title` is still empty.
pub fn extract_svg_child_nodes(
    indent: &str,
    children: &Vec<MarkupNode>,
    title: &mut String,
    result: &mut String,
    dialect: Dialect,
    config: &FilterConfig,
)
    ensures
        final(title)@ == first_title(
            old(title)@,
            serialize_nodes(node_views(children@), indent@, dialect, *config).title,
        ),
        final(result)@ == old(result)@ + serialize_nodes(
            node_views(children@),
            indent@,
            dialect,
            *config,
        ).body,
    decreases children,
{
    let ghost nodes = node_views(children@);
    let ghost title0 = title@;
    let ghost result0 = result@;
    let mut i: usize = 0;
    assert(nodes.take(0) =~= Seq::<NodeModel>::empty());
    assert(result@ =~= result0 + Seq::<char>::empty());
    while i < children.len()
        invariant
            i <= children.len(),
            nodes == node_views(children@),
            title@ == first_title(
                title0,
                serialize_nodes(nodes.take(i as int), indent@, dialect, *config).title,
            ),
            result@ == result0 + serialize_nodes(
                nodes.take(i as int),
                indent@,
                dialect,
                *config,
            ).body,
        decreases children.len() - i,
    {
        assert(nodes.take(i + 1).drop_last() =~= nodes.take(i as int));
        assert(nodes.take(i + 1).last() == children@[i as int]@);
        extract_svg_node(indent, &children[i], title, result, dialect, config);
        assert(result@ =~= result0 + serialize_nodes(
            nodes.take(i + 1),
            indent@,
            dialect,
            *config,
        ).body);
        i += 1;
    }
    assert(nodes.take(nodes.len() as int) =~= nodes);
}

/// Adds to `title` and `result` what `node` gives at the indentation
/// `indent`: the title only where `title` is still empty.
pub fn extract_svg_node(
    indent: &str,
    node: &MarkupNode,
    title: &mut String,
    result: &mut String,
    dialect: Dialect,
    config: &FilterConfig,
)
    ensures
        final(title)@ == first_title(
            old(title)@,
            serialize_node(node@, indent@, dialect, *config).title,
        ),
        final(result)@ == old(result)@ + serialize_node(node@, indent@, dialect, *config).body,
    decreases node,
{
    proof {
        lemma_view_children(*node);
    }
    let ghost result0 = result@;
    assert(result@ =~= result0 + Seq::<char>::empty());
    match &node.kind {
        NodeKind::Element(element) => {
            let name = element.name.as_str();
            if text_eq(name, "title") {
                if node.children.len() > 0 {
                    proof {
                        lemma_view_children(node.children@[0]);
                    }
                    match &node.children[0].kind {
                        NodeKind::Text(text) => {
                            if title.as_str().unicode_len() == 0 {
                                title.append(text.as_str());
                                assert(title@ =~= text@);
                            }
                        },
                        _ => {},
                    }
                }
            } else {
                let lines = attribute_lines(element, dialect, config);
                let is_group = text_eq(name, "g");
                if is_group && !(lines.len() > 0 && children_are_elements(&node.children)) {
                    extract_svg_child_nodes(indent, &node.children, title, result, dialect, config);
                } else {
                    result.append(indent);
                    result.append(name);
                    result.append(" {\n");
                    append_attribute_block(result, indent, &lines);
                    if !is_group && element.attrs.len() > 0 && node.children.len() > 0 {
                        result.append("\n");
                    }
                    let mut deeper = String::from_str("    ");
                    deeper.append(indent);
                    extract_svg_child_nodes(
                        deeper.as_str(),
                        &node.children,
                        title,
                        result,
                        dialect,
                        config,
                    );
                    result.append(indent);
                    result.append("}\n");
                    assert(result@ =~= result0 + serialize_node(
                        node@,
                        indent@,
                        dialect,
                        *config,
                    ).body);
                }
            }
        },
        _ => {},
    }
}

/// The indentation of the blocks at `depth`.
pub fn indentation(depth: usize) -> (indent: String)
    ensures
        indent@ == indent_of(depth as nat),
{
    let mut indent = String::from_str("            ");
    let mut level: usize = 0;
    while level < depth
        invariant
            level <= depth,
            indent@ == indent_of(level as nat),
        decreases depth - level,
    {
        let mut deeper = String::from_str("    ");
        deeper.append(indent.as_str());
        indent = deeper;
        level += 1;
    }
    indent
}

/// What the children of `node` give at `depth`: the first title among them
/// and their descendants, and their blocks.
pub fn serialize(node: &MarkupNode, depth: usize, icon_prefix: &str, config: &FilterConfig) -> (r:
    Rendering)
    ensures
        r@ == serialize_nodes(
            node@.children,
            indent_of(depth as nat),
            Dialect::of_prefix(icon_prefix@),
            *config,
        ),
{
    proof {
        lemma_view_children(*node);
    }
    let indent = indentation(depth);
    let mut title = String::from_str("");
    let mut body = String::from_str("");
    proof {
        reveal_strlit("");
    }
    extract_svg_child_nodes(
        indent.as_str(),
        &node.children,
        &mut title,
        &mut body,
        Dialect::from_prefix(icon_prefix),
        config,
    );
    assert(body@ =~= serialize_nodes(
        node@.children,
        indent_of(depth as nat),
        Dialect::of_prefix(icon_prefix@),
        *config,
    ).body);
    Rendering { title, body }
}

/// The first title wins: of two runs of nodes, one after the other, the title
/// is that of the first run wherever it has one, whatever the second holds;
/// and the blocks are those of the first run, then those of the second.
pub proof fn lemma_first_title_wins(
    earlier: Seq<NodeModel>,
    later: Seq<NodeModel>,
    indent: Seq<char>,
    dialect: Dialect,
    config: FilterConfig,
)
    ensures
        serialize_nodes(earlier + later, indent, dialect, config).title == first_title(
            serialize_nodes(earlier, indent, dialect, config).title,
            serialize_nodes(later, indent, dialect, config).title,
        ),
        serialize_nodes(earlier + later, indent, dialect, config).body == serialize_nodes(
            earlier,
            indent,
            dialect,
            config,
        ).body + serialize_nodes(later, indent, dialect, config).body,
    decreases later.len(),
{
    if later.len() == 0 {
        assert(earlier + later =~= earlier);
        assert(serialize_nodes(earlier, indent, dialect, config).body + Seq::<char>::empty()
            =~= serialize_nodes(earlier, indent, dialect, config).body);
    } else {
        lemma_first_title_wins(earlier, later.drop_last(), indent, dialect, config);
        assert((earlier + later).drop_last() =~= earlier + later.drop_last());
        assert((earlier + later).last() == later.last());
        let a = serialize_nodes(earlier, indent, dialect, config).body;
        let b = serialize_nodes(later.drop_last(), indent, dialect, config).body;
        let c = serialize_node(later.last(), indent, dialect, config).body;
        assert((a + b) + c =~= a + (b + c));
    }
}

/// The title does not depend on the indentation.
pub proof fn lemma_title_ignores_indent(
    nodes: Seq<NodeModel>,
    one: Seq<char>,
    other: Seq<char>,
    dialect: Dialect,
    config: FilterConfig,
)
    ensures
        serialize_nodes(nodes, one, dialect, config).title == serialize_nodes(
            nodes,
            other,
            dialect,
            config,
        ).title,
    decreases nodes,
{
    if nodes.len() > 0 {
        lemma_title_ignores_indent(nodes.drop_last(), one, other, dialect, config);
        let node = nodes.last();
        lemma_title_ignores_indent(node.children, one, other, dialect, config);
        lemma_title_ignores_indent(node.children, "    "@ + one, "    "@ + other, dialect, config);
        assert(serialize_node(node, one, dialect, config).title == serialize_node(
            node,
            other,
            dialect,
            config,
        ).title);
    }
}

/// A title element gives its text as the title and no block; any other
/// element gives the title found among its children, at whatever depth they
/// are written.
pub proof fn lemma_title_leaves_no_block(
    node: NodeModel,
    indent: Seq<char>,
    dialect: Dialect,
    config: FilterConfig,
)
    requires
        node.kind is Element,
    ensures
        node.kind->Element_0.name == "title"@ ==> serialize_node(node, indent, dialect, config)
            == (RenderingModel { title: title_text(node), body: Seq::empty() }),
        node.kind->Element_0.name != "title"@ ==> serialize_node(
            node,
            indent,
            dialect,
            config,
        ).title == serialize_nodes(node.children, indent, dialect, config).title,
{
    lemma_title_ignores_indent(node.children, "    "@ + indent, indent, dialect, config);
}

/// A `g` element of whose attributes none is kept, or that has no element
/// among its children, gives exactly what its children give at its own
/// indentation: no block stands for it.
pub proof fn lemma_group_flattened(
    node: NodeModel,
    indent: Seq<char>,
    dialect: Dialect,
    config: FilterConfig,
)
    requires
        node.kind is Element,
        node.kind->Element_0.name == "g"@,
        attribute_lines_spec(node.kind->Element_0, dialect, config).len() == 0
            || !has_element_child(node.children),
    ensures
        serialize_node(node, indent, dialect, config) == serialize_nodes(
            node.children,
            indent,
            dialect,
            config,
        ),
{
    reveal_strlit("g");
    reveal_strlit("title");
    assert("g"@.len() == 1 && "title"@.len() == 5);
}

/// A `g` element with a kept attribute and an element among its children
/// gives one block: its opening line, the lines of its attributes, what its
/// children give one level deeper, and its closing line.
pub proof fn lemma_group_retained(
    node: NodeModel,
    indent: Seq<char>,
    dialect: Dialect,
    config: FilterConfig,
)
    requires
        node.kind is Element,
        node.kind->Element_0.name == "g"@,
        attribute_lines_spec(node.kind->Element_0, dialect, config).len() > 0,
        has_element_child(node.children),
    ensures
        serialize_node(node, indent, dialect, config).body == indent + "g {\n"@ + attribute_block(
            attribute_lines_spec(node.kind->Element_0, dialect, config),
            indent,
        ) + serialize_nodes(node.children, "    "@ + indent, dialect, config).body + indent
            + "}\n"@,
        serialize_node(node, indent, dialect, config).title == serialize_nodes(
            node.children,
            "    "@ + indent,
            dialect,
            config,
        ).title,
{
    reveal_strlit("g");
    reveal_strlit("title");
    reveal_strlit(" {\n");
    let lines = attribute_lines_spec(node.kind->Element_0, dialect, config);
    let nested = serialize_nodes(node.children, "    "@ + indent, dialect, config).body;
    assert(block("g"@, lines, indent, false, nested) =~= indent + "g {\n"@ + attribute_block(
        lines,
        indent,
    ) + nested + indent + "}\n"@) by {
        reveal_strlit("g {\n");
        assert("g"@ + " {\n"@ =~= "g {\n"@);
        assert(indent + "g"@ + " {\n"@ =~= indent + "g {\n"@);
    }
}

} // verus!
