//! The markup tree, and how it is had from the text of a file.

use crate::text::text_eq;
use ego_tree::iter::Edge;
use scraper::{Html, Node};
use vstd::prelude::*;

verus! {

/// An attribute of an element.
#[derive(Debug, PartialEq, Eq)]
pub struct Attribute {
    pub name: String,
    pub value: String,
}

/// What an `Attribute` is, as mathematics.
pub struct AttributeModel {
    pub name: Seq<char>,
    pub value: Seq<char>,
}

impl View for Attribute {
    type V = AttributeModel;

    open spec fn view(&self) -> AttributeModel {
        AttributeModel { name: self.name@, value: self.value@ }
    }
}

/// The views of a sequence of attributes.
pub open spec fn attribute_views(attrs: Seq<Attribute>) -> Seq<AttributeModel> {
    attrs.map_values(|a: Attribute| a@)
}

/// An element: its tag name and its attributes.
#[derive(Debug, PartialEq, Eq)]
pub struct Element {
    pub name: String,
    pub attrs: Vec<Attribute>,
}

/// What an `Element` is, as mathematics.
pub struct ElementModel {
    pub name: Seq<char>,
    pub attrs: Seq<AttributeModel>,
}

impl View for Element {
    type V = ElementModel;

    open spec fn view(&self) -> ElementModel {
        ElementModel { name: self.name@, attrs: attribute_views(self.attrs@) }
    }
}

/// The value of the first of `attrs` that is named `name`.
pub open spec fn attr_value(attrs: Seq<AttributeModel>, name: Seq<char>) -> Option<Seq<char>>
    decreases attrs.len(),
{
    if attrs.len() == 0 {
        None
    } else if attrs[0].name == name {
        Some(attrs[0].value)
    } else {
        attr_value(attrs.skip(1), name)
    }
}

impl Element {
    /// The value of the element's first attribute named `name`.
    pub fn attr(&self, name: &str) -> (r: Option<&str>)
        ensures
            r is Some <==> attr_value(self@.attrs, name@) is Some,
            r matches Some(value) ==> attr_value(self@.attrs, name@) == Some(value@),
    {
        let ghost attrs = self@.attrs;
        let mut i: usize = 0;
        assert(attrs.skip(0) =~= attrs);
        while i < self.attrs.len()
            invariant
                i <= self.attrs.len(),
                attrs == self@.attrs,
                attr_value(attrs, name@) == attr_value(attrs.skip(i as int), name@),
            decreases self.attrs.len() - i,
        {
            assert(attrs.skip(i as int)[0] == self.attrs@[i as int]@);
            if text_eq(self.attrs[i].name.as_str(), name) {
                return Some(self.attrs[i].value.as_str());
            }
            assert(attrs.skip(i as int).skip(1) =~= attrs.skip(i + 1));
            i += 1;
        }
        None
    }
}

/// What a node is: an element, a run of text, or anything else (a comment,
/// the root of a document).
#[derive(Debug, PartialEq, Eq)]
pub enum NodeKind {
    Element(Element),
    Text(String),
    Other,
}

/// What a `NodeKind` is, as mathematics.
pub enum KindModel {
    Element(ElementModel),
    Text(Seq<char>),
    Other,
}

impl View for NodeKind {
    type V = KindModel;

    open spec fn view(&self) -> KindModel {
        match self {
            NodeKind::Element(element) => KindModel::Element(element@),
            NodeKind::Text(text) => KindModel::Text(text@),
            NodeKind::Other => KindModel::Other,
        }
    }
}

/// A node of the markup tree, with its children in order.
#[derive(Debug, PartialEq, Eq)]
pub struct MarkupNode {
    pub kind: NodeKind,
    pub children: Vec<MarkupNode>,
}

/// What a `MarkupNode` is, as mathematics: a tree of any breadth and depth.
pub struct NodeModel {
    pub kind: KindModel,
    pub children: Seq<NodeModel>,
}

impl View for MarkupNode {
    type V = NodeModel;

    open spec fn view(&self) -> NodeModel {
        model_of(*self)
    }
}

/// The view of a node: its kind's view, over the views of its children.
pub open spec fn model_of(node: MarkupNode) -> NodeModel
    decreases node,
{
    NodeModel {
        kind: node.kind@,
        children: Seq::new(
            node.children.len() as nat,
            |i: int|
                if 0 <= i < node.children.len() {
                    model_of(node.children[i])
                } else {
                    arbitrary()
                },
        ),
    }
}

/// One step of a walk through a tree: into a node, or out of the node that was
/// entered last.
#[derive(Debug, PartialEq, Eq)]
pub enum MarkupEvent {
    Open(NodeKind),
    Close,
}

/// What a `MarkupEvent` is, as mathematics.
pub enum EventModel {
    Open(KindModel),
    Close,
}

impl View for MarkupEvent {
    type V = EventModel;

    open spec fn view(&self) -> EventModel {
        match self {
            MarkupEvent::Open(kind) => EventModel::Open(kind@),
            MarkupEvent::Close => EventModel::Close,
        }
    }
}

/// The views of a sequence of nodes.
pub open spec fn node_views(nodes: Seq<MarkupNode>) -> Seq<NodeModel> {
    nodes.map_values(|n: MarkupNode| n@)
}

/// The views of a sequence of events.
pub open spec fn event_views(events: Seq<MarkupEvent>) -> Seq<EventModel> {
    events.map_values(|e: MarkupEvent| e@)
}

/// The walk through `node`: into it, through its children in order, out of it.
pub open spec fn events_of(node: NodeModel) -> Seq<EventModel>
    decreases node,
{
    seq![EventModel::Open(node.kind)] + forest_events(node.children) + seq![EventModel::Close]
}

/// The walks through `nodes`, one after the other.
pub open spec fn forest_events(nodes: Seq<NodeModel>) -> Seq<EventModel>
    decreases nodes,
{
    if nodes.len() == 0 {
        Seq::empty()
    } else {
        forest_events(nodes.drop_last()) + events_of(nodes.last())
    }
}

/// How many nodes are entered and not yet left after the first `k` events.
pub open spec fn depth_after(events: Seq<EventModel>, k: int) -> int
    decreases k,
{
    if k <= 0 {
        0
    } else {
        depth_after(events, k - 1) + if events[k - 1] is Open {
            1int
        } else {
            -1int
        }
    }
}

/// The events are the walk through one tree: they enter a node first, leave
/// it last, and never leave it before.
pub open spec fn well_nested(events: Seq<EventModel>) -> bool {
    &&& events.len() > 0
    &&& depth_after(events, events.len() as int) == 0
    &&& forall|k: int| 0 < k < events.len() ==> #[trigger] depth_after(events, k) >= 1
}

/// The events that lead into the nodes of `frames`, each nested in the one
/// before, and through the children that each has so far.
spec fn open_events(frames: Seq<NodeModel>) -> Seq<EventModel>
    decreases frames.len(),
{
    if frames.len() == 0 {
        Seq::empty()
    } else {
        open_events(frames.drop_last()) + seq![EventModel::Open(frames.last().kind)]
            + forest_events(frames.last().children)
    }
}

/// The children of a node's view are the views of its children.
pub proof fn lemma_view_children(node: MarkupNode)
    ensures
        node@.kind == node.kind@,
        node@.children == node_views(node.children@),
{
    assert(node@.children =~= node_views(node.children@));
}

/// The tree whose walk `events` is, where there is one.
pub fn build_tree(events: Vec<MarkupEvent>) -> (r: Option<MarkupNode>)
    ensures
        r is Some <==> well_nested(event_views(events@)),
        r matches Some(tree) ==> events_of(tree@) == event_views(events@),
        r matches Some(tree) ==> tree@ == tree_of(event_views(events@)),
{
    let ghost evs = events@;
    let ghost all = event_views(events@);
    let mut stack: Vec<MarkupNode> = Vec::new();
    let mut root: Option<MarkupNode> = None;
    assert(all.take(0) =~= Seq::<EventModel>::empty());
    assert(node_views(stack@) =~= Seq::<NodeModel>::empty());
    for event in it: events
        invariant
            it.seq() == evs,
            all == event_views(evs),
            root is None ==> {
                &&& depth_after(all, it.index() as int) == stack.len()
                &&& open_events(node_views(stack@)) == all.take(it.index() as int)
                &&& (it.index() > 0 ==> stack.len() >= 1)
            },
            root matches Some(t) ==> {
                &&& stack.len() == 0
                &&& it.index() > 0
                &&& depth_after(all, it.index() as int) == 0
                &&& events_of(t@) == all.take(it.index() as int)
            },
            forall|k: int| 0 < k < it.index() ==> #[trigger] depth_after(all, k) >= 1,
    {
        let ghost i = it.index() as int;
        let ghost frames = node_views(stack@);
        assert(all[i] == event@);
        assert(all.take(i + 1) =~= all.take(i).push(all[i]));
        match event {
            MarkupEvent::Open(kind) => {
                if root.is_some() {
                    return None;
                }
                let node = MarkupNode { kind, children: Vec::new() };
                proof {
                    lemma_view_children(node);
                    assert(node@.children =~= Seq::<NodeModel>::empty());
                }
                stack.push(node);
                proof {
                    let after = node_views(stack@);
                    assert(after =~= frames.push(node@));
                    assert(after.drop_last() =~= frames);
                }
            },
            MarkupEvent::Close => {
                match stack.pop() {
                    None => {
                        assert(depth_after(all, i + 1) < 0);
                        return None;
                    },
                    Some(node) => {
                        assert(frames.last() == node@);
                        assert(frames.drop_last() =~= node_views(stack@));
                        match stack.pop() {
                            Some(mut parent) => {
                                let ghost rest = node_views(stack@);
                                let ghost before = parent@;
                                assert(frames.drop_last().last() == before);
                                assert(frames.drop_last().drop_last() =~= rest);
                                proof {
                                    lemma_view_children(parent);
                                    lemma_view_children(node);
                                }
                                parent.children.push(node);
                                proof {
                                    lemma_view_children(parent);
                                    assert(parent@.children =~= before.children.push(node@));
                                    assert(parent@.children.drop_last() =~= before.children);
                                }
                                stack.push(parent);
                                proof {
                                    let after = node_views(stack@);
                                    assert(after =~= rest.push(parent@));
                                    assert(after.drop_last() =~= rest);
                                    reveal_with_fuel(open_events, 3);
                                    reveal_with_fuel(forest_events, 2);
                                    assert(open_events(frames) == open_events(rest) + seq![
                                        EventModel::Open(before.kind),
                                    ] + forest_events(before.children) + seq![
                                        EventModel::Open(node@.kind),
                                    ] + forest_events(node@.children));
                                    assert(forest_events(parent@.children) == forest_events(
                                        before.children,
                                    ) + events_of(node@));
                                    assert(open_events(after) =~= open_events(frames).push(
                                        EventModel::Close,
                                    ));
                                }
                            },
                            None => {
                                assert(frames.drop_last() =~= Seq::<NodeModel>::empty());
                                proof {
                                    reveal_with_fuel(open_events, 3);
                                }
                                assert(events_of(node@) =~= open_events(frames).push(
                                    EventModel::Close,
                                ));
                                root = Some(node);
                            },
                        }
                    },
                }
            },
        }
    }
    assert(all.take(all.len() as int) =~= all);
    proof {
        if root is Some {
            lemma_tree_of_walk(root->0@);
        }
    }
    root
}

/// The depth after `k` events of two walks joined is that of the first walk,
/// then that of the second on top of where the first ended.
proof fn lemma_depth_concat(a: Seq<EventModel>, b: Seq<EventModel>, k: int)
    requires
        0 <= k <= a.len() + b.len(),
    ensures
        depth_after(a + b, k) == if k <= a.len() {
            depth_after(a, k)
        } else {
            depth_after(a, a.len() as int) + depth_after(b, k - a.len())
        },
    decreases k,
{
    reveal_with_fuel(depth_after, 2);
    if k > 0 {
        lemma_depth_concat(a, b, k - 1);
        if k <= a.len() {
            assert((a + b)[k - 1] == a[k - 1]);
        } else {
            assert((a + b)[k - 1] == b[k - 1 - a.len()]);
        }
    }
}

/// The walk through a tree is well nested.
pub proof fn lemma_walk_well_nested(node: NodeModel)
    ensures
        well_nested(events_of(node)),
    decreases node,
{
    let inner = forest_events(node.children);
    let head = seq![EventModel::Open(node.kind)];
    let tail = seq![EventModel::Close];
    let walk = events_of(node);
    lemma_forest_never_below(node.children);
    reveal_with_fuel(depth_after, 2);
    assert(depth_after(head, 1) == 1);
    assert(depth_after(tail, 1) == -1);
    assert forall|k: int| 0 < k <= walk.len() implies #[trigger] depth_after(walk, k) == (if k
        < walk.len() {
        1 + depth_after(inner, k - 1)
    } else {
        0
    }) by {
        lemma_depth_concat(head + inner, tail, k);
        if k <= 1 + inner.len() {
            lemma_depth_concat(head, inner, k);
        } else {
            lemma_depth_concat(head, inner, 1 + inner.len() as int);
        }
    }
}

/// The walks through a forest end at the depth where they began, and never
/// go below it.
proof fn lemma_forest_never_below(nodes: Seq<NodeModel>)
    ensures
        depth_after(forest_events(nodes), forest_events(nodes).len() as int) == 0,
        forall|k: int|
            0 <= k <= forest_events(nodes).len() ==> #[trigger] depth_after(
                forest_events(nodes),
                k,
            ) >= 0,
    decreases nodes,
{
    if nodes.len() > 0 {
        let before = forest_events(nodes.drop_last());
        let last = events_of(nodes.last());
        lemma_forest_never_below(nodes.drop_last());
        lemma_walk_well_nested(nodes.last());
        assert forall|k: int| 0 <= k <= (before + last).len() implies #[trigger] depth_after(
            before + last,
            k,
        ) >= 0 by {
            lemma_depth_concat(before, last, k);
            if k > before.len() && k - before.len() < last.len() {
                assert(depth_after(last, k - before.len()) >= 1);
            }
        }
        lemma_depth_concat(before, last, (before + last).len() as int);
    }
}

/// Of two walks that end a sequence of events, neither is a proper end of the
/// other: they have the same length.
proof fn lemma_last_walks_align(
    pa: Seq<EventModel>,
    a: NodeModel,
    pb: Seq<EventModel>,
    b: NodeModel,
)
    requires
        pa + events_of(a) == pb + events_of(b),
        events_of(a).len() <= events_of(b).len(),
    ensures
        events_of(a).len() == events_of(b).len(),
{
    let ea = events_of(a);
    let eb = events_of(b);
    lemma_walk_well_nested(a);
    lemma_walk_well_nested(b);
    if ea.len() < eb.len() {
        let cut = eb.len() - ea.len();
        let front = eb.take(cut);
        assert((pa + ea).len() == (pb + eb).len());
        assert(eb =~= front + ea) by {
            assert forall|j: int| 0 <= j < ea.len() implies eb[cut + j] == ea[j] by {
                assert((pa + ea)[pa.len() + j] == ea[j]);
                assert((pb + eb)[pb.len() + cut + j] == eb[cut + j]);
            }
        }
        lemma_depth_concat(front, ea, eb.len() as int);
        lemma_depth_concat(front, ea, cut);
        assert(depth_after(eb, cut) >= 1);
    }
}

/// Two joined sequences that are equal, and whose second parts have the same
/// length, are equal part by part.
proof fn lemma_split_aligned(
    pa: Seq<EventModel>,
    ea: Seq<EventModel>,
    pb: Seq<EventModel>,
    eb: Seq<EventModel>,
)
    requires
        pa + ea == pb + eb,
        ea.len() == eb.len(),
    ensures
        pa == pb,
        ea == eb,
{
    assert((pa + ea).len() == (pb + eb).len());
    assert(pa =~= (pa + ea).take(pa.len() as int));
    assert(pb =~= (pb + eb).take(pb.len() as int));
    assert(ea =~= (pa + ea).skip(pa.len() as int));
    assert(eb =~= (pb + eb).skip(pb.len() as int));
}

/// Two trees with the same walk are the same tree.
pub proof fn lemma_walk_injective(a: NodeModel, b: NodeModel)
    requires
        events_of(a) == events_of(b),
    ensures
        a == b,
    decreases a,
{
    let fa = forest_events(a.children);
    let fb = forest_events(b.children);
    assert(events_of(a).len() == fa.len() + 2);
    assert(events_of(b).len() == fb.len() + 2);
    assert(events_of(a)[0] == EventModel::Open(a.kind));
    assert(events_of(b)[0] == EventModel::Open(b.kind));
    assert(fa =~= events_of(a).subrange(1, 1 + fa.len() as int));
    assert(fb =~= events_of(b).subrange(1, 1 + fb.len() as int));
    lemma_forest_injective(a.children, b.children);
}

/// Two forests with the same walks are the same forest.
proof fn lemma_forest_injective(x: Seq<NodeModel>, y: Seq<NodeModel>)
    requires
        forest_events(x) == forest_events(y),
    ensures
        x == y,
    decreases x,
{
    if x.len() == 0 {
        if y.len() > 0 {
            assert(events_of(y.last()).len() >= 2);
            assert(forest_events(y).len() >= events_of(y.last()).len());
        }
        assert(x =~= y);
    } else if y.len() == 0 {
        assert(events_of(x.last()).len() >= 2);
        assert(forest_events(x).len() >= events_of(x.last()).len());
    } else {
        let pa = forest_events(x.drop_last());
        let pb = forest_events(y.drop_last());
        let ea = events_of(x.last());
        let eb = events_of(y.last());
        assert(forest_events(x) == pa + ea);
        assert(forest_events(y) == pb + eb);
        assert(ea.len() == eb.len()) by {
            if ea.len() <= eb.len() {
                lemma_last_walks_align(pa, x.last(), pb, y.last());
            } else {
                lemma_last_walks_align(pb, y.last(), pa, x.last());
            }
        }
        lemma_split_aligned(pa, ea, pb, eb);
        lemma_walk_injective(x.last(), y.last());
        lemma_forest_injective(x.drop_last(), y.drop_last());
        assert(x =~= x.drop_last().push(x.last()));
        assert(y =~= y.drop_last().push(y.last()));
    }
}

/// The tree whose walk `events` is. It is that of `build_tree` where the
/// events are well nested, and arbitrary where they are not.
pub open spec fn tree_of(events: Seq<EventModel>) -> NodeModel {
    choose|tree: NodeModel| events_of(tree) == events
}

/// A tree is found again from its walk.
pub proof fn lemma_tree_of_walk(tree: NodeModel)
    ensures
        tree_of(events_of(tree)) == tree,
{
    lemma_walk_injective(tree_of(events_of(tree)), tree);
}

/// The walk through the tree that scraper's parser makes of `content` read
/// as a fragment of markup.
pub uninterp spec fn fragment_events(content: Seq<char>) -> Seq<EventModel>;

/// The longest text, in characters, that is handed to the parser. The parser
/// holds text in buffers of less than 2^31 bytes and stops the program
/// beyond; a character takes up to four bytes, and the parser may write three
/// bytes for one that it reads.
pub const MAX_MARKUP_CHARS: usize = 0x800_0000;

/// `scraper::Html::parse_fragment`, and the walk through its tree that
/// ego_tree's `traverse` makes from the root, each edge turned into an event:
/// an element with its local name and its attributes (local name and value)
/// in the order in which scraper holds them, a text with its characters, any
/// other node without content. On a text within the bound the parser does
/// not fail, and it gives the same tree for the same text.
#[verifier::external_body]
fn parse_fragment_events(content: &str) -> (events: Vec<MarkupEvent>)
    requires
        content@.len() <= MAX_MARKUP_CHARS,
    ensures
        event_views(events@) == fragment_events(content@),
{
    Html::parse_fragment(content).tree.root().traverse().map(|edge| match edge {
        Edge::Open(node) => MarkupEvent::Open(match node.value() {
            Node::Element(e) => NodeKind::Element(Element {
                name: e.name().to_string(),
                attrs: e.attrs().map(|(n, v)| Attribute { name: n.to_string(), value: v.to_string() }).collect(),
            }),
            Node::Text(t) => NodeKind::Text(t.to_string()),
            Node::Document | Node::Fragment | Node::Doctype(_) | Node::Comment(_)
            | Node::ProcessingInstruction(_) => NodeKind::Other,
        }),
        Edge::Close(_) => MarkupEvent::Close,
    }).collect()
}

/// The tree that the parser makes of `content`: there is one where the text
/// is no longer than `MAX_MARKUP_CHARS` and the parser's walk is well nested.
pub open spec fn parsed_markup(content: Seq<char>) -> Option<NodeModel> {
    if content.len() <= MAX_MARKUP_CHARS && well_nested(fragment_events(content)) {
        Some(tree_of(fragment_events(content)))
    } else {
        None
    }
}

/// Parses `content` as a fragment of markup. A text of more than
/// `MAX_MARKUP_CHARS` characters is not handed to the parser, and gives `None`.
pub fn parse_markup(content: &str) -> (r: Option<MarkupNode>)
    ensures
        r is Some <==> parsed_markup(content@) is Some,
        r matches Some(tree) ==> parsed_markup(content@) == Some(tree@),
        r matches Some(tree) ==> events_of(tree@) == fragment_events(content@),
        content@.len() > MAX_MARKUP_CHARS ==> r is None,
{
    if content.unicode_len() > MAX_MARKUP_CHARS {
        return None;
    }
    build_tree(parse_fragment_events(content))
}

} // verus!
