//! The node arena: the document tree, stored as a table of nodes that are
//! addressed by stable integer handles.
//!
//! Every node is an element, a text node, a comment or the document root. A
//! node knows its parent and the ordered list of its children. The arena keeps
//! the two directions consistent and free of cycles, so the live nodes always
//! form a forest: the tree under the document root, plus the trees of nodes
//! that were created or detached and are not mounted anywhere.
use crate::text::str_eq;
use vstd::prelude::*;
use vstd::set_lib::*;
use vstd::string::*;

verus! {

/// A stable handle of a node: its index in the arena.
pub type NodeId = usize;

/// The handle of the document root, which every arena holds from the start.
pub const ROOT: NodeId = 0;

/// A name/value pair stored on an element.
pub struct Attribute {
    pub name: String,
    pub value: String,
}

/// The mathematical value of an [`Attribute`].
pub struct AttributeView {
    pub name: Seq<char>,
    pub value: Seq<char>,
}

impl View for Attribute {
    type V = AttributeView;

    open spec fn view(&self) -> AttributeView {
        AttributeView { name: self.name@, value: self.value@ }
    }
}

/// Widget state that the host keeps for form controls, next to the generic
/// attribute list.
pub enum Widget {
    /// An ordinary element.
    Plain,
    /// A checkbox-like control and whether it is checked.
    Checkbox(bool),
    /// A text-input-like control and its live text buffer.
    TextInput(String),
}

/// The mathematical value of a [`Widget`].
pub enum WidgetView {
    Plain,
    Checkbox(bool),
    TextInput(Seq<char>),
}

impl View for Widget {
    type V = WidgetView;

    open spec fn view(&self) -> WidgetView {
        match self {
            Widget::Plain => WidgetView::Plain,
            Widget::Checkbox(b) => WidgetView::Checkbox(*b),
            Widget::TextInput(s) => WidgetView::TextInput(s@),
        }
    }
}

/// What an element node holds.
pub struct ElementData {
    pub tag: String,
    pub namespace: Option<String>,
    pub attrs: Vec<Attribute>,
    pub widget: Widget,
}

/// The views of a list of attributes, in order.
pub open spec fn attrs_view(attrs: Seq<Attribute>) -> Seq<AttributeView> {
    attrs.map_values(|a: Attribute| a@)
}

/// The view of an optional string.
pub open spec fn opt_str_view(s: Option<String>) -> Option<Seq<char>> {
    match s {
        Some(s) => Some(s@),
        None => None,
    }
}

/// The kind of a node and the data of that kind.
pub enum NodeData {
    /// The document root.
    Document,
    Element(ElementData),
    Text(String),
    /// An opaque placeholder, used for anchors and inert markers.
    Comment,
}

/// The mathematical value of a [`NodeData`].
pub enum DataView {
    Document,
    Element {
        tag: Seq<char>,
        namespace: Option<Seq<char>>,
        attrs: Seq<AttributeView>,
        widget: WidgetView,
    },
    Text(Seq<char>),
    Comment,
}

impl View for NodeData {
    type V = DataView;

    open spec fn view(&self) -> DataView {
        match self {
            NodeData::Document => DataView::Document,
            NodeData::Element(e) => DataView::Element {
                tag: e.tag@,
                namespace: opt_str_view(e.namespace),
                attrs: attrs_view(e.attrs@),
                widget: e.widget@,
            },
            NodeData::Text(s) => DataView::Text(s@),
            NodeData::Comment => DataView::Comment,
        }
    }
}

/// A node of the document tree.
pub struct Node {
    pub parent: Option<NodeId>,
    pub children: Vec<NodeId>,
    pub data: NodeData,
}

/// The mathematical value of a [`Node`].
pub struct NodeView {
    pub parent: Option<NodeId>,
    pub children: Seq<NodeId>,
    pub data: DataView,
}

impl View for Node {
    type V = NodeView;

    open spec fn view(&self) -> NodeView {
        NodeView { parent: self.parent, children: self.children@, data: self.data@ }
    }
}

/// A request to the style engine, raised by a change that affects
/// presentation. The host drains these and forwards them.
#[derive(Clone, Copy, PartialEq, Eq, Structural, Debug)]
pub enum StyleSignal {
    /// The `style` attribute of this element was written.
    Restyle(NodeId),
    /// The text of this `<style>` element changed: its stylesheet must be
    /// parsed again.
    Stylesheet(NodeId),
}

enum Slot {
    /// Never used, or released: the next node may take it.
    Vacant,
    /// The node was removed. Its handle stays reserved until it is released.
    Removed,
    Live(Node),
}

/// The document tree.
pub struct Arena {
    slots: Vec<Slot>,
    free: Vec<NodeId>,
    signals: Vec<StyleSignal>,
    depth: Ghost<Map<NodeId, nat>>,
}

/// Parent and child links agree: a node that names a parent stands in that
/// parent's child list, every entry of a child list names a live node whose
/// parent is the owner of the list, and no child list holds a node twice.
pub open spec fn forest(m: Map<NodeId, NodeView>) -> bool {
    &&& forall|id: NodeId| #[trigger]
        m.contains_key(id) ==> (m[id].parent matches Some(p) ==> m.contains_key(p)
            && m[p].children.contains(id))
    &&& forall|p: NodeId, i: int|
        m.contains_key(p) && 0 <= i < m[p].children.len() ==> m.contains_key(
            #[trigger] m[p].children[i],
        ) && m[m[p].children[i]].parent == Some(p)
    &&& forall|p: NodeId| #[trigger] m.contains_key(p) ==> m[p].children.no_duplicates()
}

/// The names of a list of attributes, in order.
pub open spec fn attr_names(attrs: Seq<AttributeView>) -> Seq<Seq<char>> {
    attrs.map_values(|a: AttributeView| a.name)
}

/// No element holds two attributes of one name.
pub open spec fn unique_attribute_names(m: Map<NodeId, NodeView>) -> bool {
    forall|id: NodeId| #[trigger]
        m.contains_key(id) ==> (m[id].data matches DataView::Element { attrs, .. } ==> attr_names(
            attrs,
        ).no_duplicates())
}

/// The document root is live, has no parent, and is the only document node.
pub open spec fn rooted(m: Map<NodeId, NodeView>) -> bool {
    &&& m.contains_key(ROOT)
    &&& m[ROOT].parent is None
    &&& forall|id: NodeId| #[trigger] m.contains_key(id) ==> (m[id].data is Document <==> id == ROOT)
}

/// Whether `a` is `x` or one of its ancestors, decided along the parent links
/// `m`, where `depth` grows strictly from parent to child.
pub open spec fn ancestor_in(
    m: Map<NodeId, NodeView>,
    depth: Map<NodeId, nat>,
    a: NodeId,
    x: NodeId,
) -> bool
    decreases depth[x],
{
    a == x || (m.contains_key(x) && (m[x].parent matches Some(p) && depth[p] < depth[x]
        && ancestor_in(m, depth, a, p)))
}

/// `depth` grows strictly along every parent link of `m`.
pub open spec fn ranked(m: Map<NodeId, NodeView>, depth: Map<NodeId, nat>) -> bool {
    forall|id: NodeId| #[trigger]
        m.contains_key(id) ==> (m[id].parent matches Some(p) ==> depth[p] < depth[id])
}

/// Ancestry is decided by the parent links of the nodes on the way up. Two
/// forests that agree on the links of every node of the first agree on the
/// ancestors of each such node.
pub proof fn lemma_ancestor_frame(
    m1: Map<NodeId, NodeView>,
    d1: Map<NodeId, nat>,
    m2: Map<NodeId, NodeView>,
    d2: Map<NodeId, nat>,
    a: NodeId,
    x: NodeId,
)
    requires
        forest(m1),
        ranked(m1, d1),
        ranked(m2, d2),
        m1.contains_key(x),
        forall|y: NodeId|
            m1.contains_key(y) && #[trigger] ancestor_in(m1, d1, y, x) ==> m2.contains_key(y)
                && m2[y].parent == m1[y].parent,
    ensures
        ancestor_in(m2, d2, a, x) == ancestor_in(m1, d1, a, x),
    decreases d1[x],
{
    assert(ancestor_in(m1, d1, x, x));
    if a != x {
        if let Some(p) = m1[x].parent {
            assert forall|y: NodeId|
                m1.contains_key(y) && #[trigger] ancestor_in(m1, d1, y, p) implies m2.contains_key(
                y,
            ) && m2[y].parent == m1[y].parent by {
                assert(ancestor_in(m1, d1, y, x));
            }
            lemma_ancestor_frame(m1, d1, m2, d2, a, p);
        }
    }
}

/// A node lies no deeper than the nodes under it, and only as deep as itself.
pub proof fn lemma_ancestor_depth(
    m: Map<NodeId, NodeView>,
    d: Map<NodeId, nat>,
    a: NodeId,
    x: NodeId,
)
    requires
        ancestor_in(m, d, a, x),
    ensures
        d[a] <= d[x],
        d[a] == d[x] ==> a == x,
    decreases d[x],
{
    if a != x {
        lemma_ancestor_depth(m, d, a, m[x].parent->0);
    }
}

/// A proper ancestor of a node is an ancestor of one of its own children that
/// lies on the way down to that node.
pub proof fn lemma_ancestor_via_child(
    m: Map<NodeId, NodeView>,
    d: Map<NodeId, nat>,
    a: NodeId,
    x: NodeId,
) -> (c: NodeId)
    requires
        forest(m),
        ancestor_in(m, d, a, x),
        a != x,
    ensures
        m.contains_key(c),
        m[c].parent == Some(a),
        m[a].children.contains(c),
        ancestor_in(m, d, c, x),
    decreases d[x],
{
    let p = m[x].parent->0;
    if p == a {
        x
    } else {
        lemma_ancestor_via_child(m, d, a, p)
    }
}

/// An ancestor of a live node is live.
pub proof fn lemma_ancestor_live(
    m: Map<NodeId, NodeView>,
    d: Map<NodeId, nat>,
    a: NodeId,
    x: NodeId,
)
    requires
        forest(m),
        ranked(m, d),
        m.contains_key(x),
        ancestor_in(m, d, a, x),
    ensures
        m.contains_key(a),
    decreases d[x],
{
    if a != x {
        if let Some(p) = m[x].parent {
            lemma_ancestor_live(m, d, a, p);
        }
    }
}

/// Ancestry is transitive.
pub proof fn lemma_ancestor_trans(
    m: Map<NodeId, NodeView>,
    d: Map<NodeId, nat>,
    a: NodeId,
    b: NodeId,
    x: NodeId,
)
    requires
        ancestor_in(m, d, a, b),
        ancestor_in(m, d, b, x),
    ensures
        ancestor_in(m, d, a, x),
    decreases d[x],
{
    if b != x {
        if let Some(p) = m[x].parent {
            lemma_ancestor_trans(m, d, a, b, p);
        }
    }
}

/// What a list without duplicates holds after a new element is put in.
pub proof fn lemma_insert_distinct(s: Seq<NodeId>, i: int, a: NodeId)
    requires
        0 <= i <= s.len(),
        s.no_duplicates(),
        !s.contains(a),
    ensures
        s.insert(i, a).no_duplicates(),
        s.insert(i, a).len() == s.len() + 1,
        s.insert(i, a)[i] == a,
        forall|x: NodeId| #[trigger] s.insert(i, a).contains(x) <==> x == a || s.contains(x),
{
    let r = s.insert(i, a);
    s.insert_ensures(i, a);
    assert forall|x: NodeId| #[trigger] r.contains(x) <==> x == a || s.contains(x) by {
        if r.contains(x) {
            let j = choose|j: int| 0 <= j < r.len() && r[j] == x;
            if j < i {
                assert(s[j] == x);
            } else if j > i {
                assert(r[(j - 1) + 1] == s[j - 1]);
            }
        }
        if s.contains(x) {
            let j = choose|j: int| 0 <= j < s.len() && s[j] == x;
            if j < i {
                assert(r[j] == x);
            } else {
                assert(r[j + 1] == x);
            }
        }
        if x == a {
            assert(r[i] == x);
        }
    }
    assert forall|j: int, k: int| 0 <= j < r.len() && 0 <= k < r.len() && j != k implies r[j]
        != r[k] by {
        let sj = if j < i { j } else { j - 1 };
        let sk = if k < i { k } else { k - 1 };
        if j != i {
            assert(r[j] == s[sj]) by {
                if j > i {
                    assert(r[(j - 1) + 1] == s[j - 1]);
                }
            }
        }
        if k != i {
            assert(r[k] == s[sk]) by {
                if k > i {
                    assert(r[(k - 1) + 1] == s[k - 1]);
                }
            }
        }
    }
}

/// What a list without duplicates holds after the element at `i` is taken out.
pub proof fn lemma_remove_distinct(s: Seq<NodeId>, i: int)
    requires
        0 <= i < s.len(),
        s.no_duplicates(),
    ensures
        s.remove(i).no_duplicates(),
        s.remove(i).len() == s.len() - 1,
        forall|x: NodeId| #[trigger] s.remove(i).contains(x) <==> x != s[i] && s.contains(x),
{
    let r = s.remove(i);
    s.remove_ensures(i);
    assert forall|x: NodeId| #[trigger] r.contains(x) <==> x != s[i] && s.contains(x) by {
        if r.contains(x) {
            let j = choose|j: int| 0 <= j < r.len() && r[j] == x;
            if j < i {
                assert(s[j] == x);
            } else {
                assert(s[j + 1] == x);
            }
        }
        if x != s[i] && s.contains(x) {
            let j = choose|j: int| 0 <= j < s.len() && s[j] == x;
            if j < i {
                assert(r[j] == x);
            } else {
                assert(r[j - 1] == s[(j - 1) + 1]);
            }
        }
    }
}

/// The live nodes after `node` has been put into the child list of `parent`
/// at position `index`.
pub open spec fn linked(m: Map<NodeId, NodeView>, parent: NodeId, index: int, node: NodeId) -> Map<
    NodeId,
    NodeView,
> {
    m.insert(
        parent,
        NodeView { children: m[parent].children.insert(index, node), ..m[parent] },
    ).insert(node, NodeView { parent: Some(parent), ..m[node] })
}

/// Who is an ancestor of whom after a detached node received a parent.
proof fn lemma_link_ancestors(
    m1: Map<NodeId, NodeView>,
    d1: Map<NodeId, nat>,
    m2: Map<NodeId, NodeView>,
    d2: Map<NodeId, nat>,
    parent: NodeId,
    node: NodeId,
    a: NodeId,
    x: NodeId,
)
    requires
        forest(m1),
        ranked(m1, d1),
        ranked(m2, d2),
        m1.contains_key(parent),
        m1.contains_key(node),
        m1[node].parent is None,
        !ancestor_in(m1, d1, node, parent),
        m2.dom() == m1.dom(),
        forall|y: NodeId| #[trigger]
            m1.contains_key(y) ==> m2[y].parent == if y == node {
                Some(parent)
            } else {
                m1[y].parent
            },
    ensures
        ancestor_in(m2, d2, a, x) == (ancestor_in(m1, d1, a, x) || (ancestor_in(m1, d1, node, x)
            && ancestor_in(m1, d1, a, parent))),
    decreases d2[x],
{
    if !m1.contains_key(x) {
    } else if x == node {
        lemma_link_ancestors(m1, d1, m2, d2, parent, node, a, parent);
    } else {
        if let Some(p) = m1[x].parent {
            lemma_link_ancestors(m1, d1, m2, d2, parent, node, a, p);
        }
    }
}

/// The node that follows `id` in the child list of its parent, if `id` is
/// live, has a parent, and is not the last child.
pub open spec fn next_sibling_of(m: Map<NodeId, NodeView>, id: NodeId) -> Option<NodeId> {
    if m.contains_key(id) && m[id].parent is Some {
        let siblings = m[m[id].parent->0].children;
        let i = siblings.index_of(id);
        if i + 1 < siblings.len() {
            Some(siblings[i + 1])
        } else {
            None
        }
    } else {
        None
    }
}

/// The parent that receives the new nodes: the parent of the reference node
/// where one is given, else `parent`.
pub open spec fn insertion_parent(
    m: Map<NodeId, NodeView>,
    parent: NodeId,
    reference: Option<NodeId>,
) -> NodeId {
    match reference {
        Some(r) => m[r].parent->0,
        None => parent,
    }
}

/// The position in the receiving child list at which the new nodes go: that of
/// the reference node where one is given, else the end.
pub open spec fn insertion_index(
    m: Map<NodeId, NodeView>,
    parent: NodeId,
    reference: Option<NodeId>,
) -> int {
    match reference {
        Some(r) => m[m[r].parent->0].children.index_of(r),
        None => m[parent].children.len() as int,
    }
}

/// The live nodes after the detached nodes `nodes` have been put, in order,
/// into the child list of `target` at position `index`.
pub open spec fn spliced(
    m: Map<NodeId, NodeView>,
    target: NodeId,
    index: int,
    nodes: Seq<NodeId>,
) -> Map<NodeId, NodeView> {
    Map::new(
        |id: NodeId| m.contains_key(id),
        |id: NodeId|
            if id == target {
                NodeView {
                    children: m[target].children.subrange(0, index) + nodes
                        + m[target].children.subrange(index, m[target].children.len() as int),
                    ..m[target]
                }
            } else if nodes.contains(id) {
                NodeView { parent: Some(target), ..m[id] }
            } else {
                m[id]
            },
    )
}

/// Whether one of `nodes` is `x` or an ancestor of `x`.
pub open spec fn any_ancestor_in(
    m: Map<NodeId, NodeView>,
    depth: Map<NodeId, nat>,
    nodes: Seq<NodeId>,
    x: NodeId,
) -> bool {
    exists|k: int| 0 <= k < nodes.len() && ancestor_in(m, depth, #[trigger] nodes[k], x)
}

/// Who is an ancestor of whom after the node `id` lost its parent.
proof fn lemma_unlink_ancestors(
    m1: Map<NodeId, NodeView>,
    d1: Map<NodeId, nat>,
    m2: Map<NodeId, NodeView>,
    id: NodeId,
    a: NodeId,
    x: NodeId,
)
    requires
        forest(m1),
        ranked(m1, d1),
        m1.contains_key(id),
        m2.dom() == m1.dom(),
        forall|y: NodeId| #[trigger]
            m1.contains_key(y) ==> m2[y].parent == if y == id {
                None
            } else {
                m1[y].parent
            },
    ensures
        ancestor_in(m2, d1, a, x) == if ancestor_in(m1, d1, id, x) {
            ancestor_in(m1, d1, a, x) && ancestor_in(m1, d1, id, a)
        } else {
            ancestor_in(m1, d1, a, x)
        },
    decreases d1[x],
{
    if !m1.contains_key(x) {
    } else if x == id {
        if a != id && ancestor_in(m1, d1, a, id) && ancestor_in(m1, d1, id, a) {
            lemma_ancestor_depth(m1, d1, a, id);
            lemma_ancestor_depth(m1, d1, id, a);
        }
    } else {
        if let Some(p) = m1[x].parent {
            lemma_unlink_ancestors(m1, d1, m2, id, a, p);
        }
    }
}

/// The live nodes after `id` has been taken out of the child list of its
/// parent, where it has one, and stands without a parent.
pub open spec fn unlinked(m: Map<NodeId, NodeView>, id: NodeId) -> Map<NodeId, NodeView> {
    Map::new(
        |x: NodeId| m.contains_key(x),
        |x: NodeId|
            if x == id {
                NodeView { parent: None, ..m[x] }
            } else if m[id].parent == Some(x) {
                NodeView { children: m[x].children.remove(m[x].children.index_of(id)), ..m[x] }
            } else {
                m[x]
            },
    )
}

/// The live nodes after `id` and everything under it has been removed.
pub open spec fn pruned(m: Map<NodeId, NodeView>, depth: Map<NodeId, nat>, id: NodeId) -> Map<
    NodeId,
    NodeView,
> {
    Map::new(
        |x: NodeId| m.contains_key(x) && !ancestor_in(m, depth, id, x),
        |x: NodeId|
            if m[id].parent == Some(x) {
                NodeView { children: m[x].children.remove(m[x].children.index_of(id)), ..m[x] }
            } else {
                m[x]
            },
    )
}

/// The live nodes of `m` at or under `id`.
pub open spec fn subtree(m: Map<NodeId, NodeView>, depth: Map<NodeId, nat>, id: NodeId) -> Set<
    NodeId,
> {
    Set::new(|x: NodeId| m.contains_key(x) && ancestor_in(m, depth, id, x))
}

/// Appends `items` to `stack`.
fn push_all(stack: &mut Vec<NodeId>, items: &Vec<NodeId>)
    ensures
        final(stack)@ == old(stack)@ + items@,
{
    let mut i: usize = 0;
    while i < items.len()
        invariant
            i <= items.len(),
            stack@ == old(stack)@ + items@.take(i as int),
        decreases items.len() - i,
    {
        stack.push(items[i]);
        assert(items@.take(i + 1) =~= items@.take(i as int).push(items@[i as int]));
        i = i + 1;
    }
    assert(items@.take(i as int) =~= items@);
}

/// What holds while the tree under the detached node `id` is swept out,
/// parents before children: `done` holds the nodes swept so far and `stack`
/// those whose turn is still to come.
spec fn sweeping(
    m: Map<NodeId, NodeView>,
    d: Map<NodeId, nat>,
    id: NodeId,
    done: Set<int>,
    stack: Seq<NodeId>,
) -> bool {
    &&& stack.no_duplicates()
    &&& forall|i: int|
        0 <= i < stack.len() ==> m.contains_key(#[trigger] stack[i]) && ancestor_in(
            m,
            d,
            id,
            stack[i],
        ) && !done.contains(stack[i] as int) && (stack[i] == id || (m[stack[i]].parent matches Some(
            p,
        ) && done.contains(p as int)))
    &&& forall|y: NodeId|
        done.contains(y as int) ==> m.contains_key(y) && ancestor_in(m, d, id, y) && (y == id || (
        m[y].parent matches Some(p) && done.contains(p as int)))
    &&& forall|x: NodeId|
        m.contains_key(x) && ancestor_in(m, d, id, x) ==> done.contains(x as int) || exists|i: int|
            0 <= i < stack.len() && ancestor_in(m, d, #[trigger] stack[i], x)
}

/// One step of the sweep: the node on top of the stack is swept, and its
/// children take its place.
#[verifier::rlimit(60)]
#[verifier::spinoff_prover]
proof fn lemma_sweep_step(
    m: Map<NodeId, NodeView>,
    d: Map<NodeId, nat>,
    id: NodeId,
    done0: Set<int>,
    stack0: Seq<NodeId>,
)
    requires
        forest(m),
        ranked(m, d),
        m.contains_key(id),
        m[id].parent is None,
        stack0.len() > 0,
        sweeping(m, d, id, done0, stack0),
    ensures
        m.contains_key(stack0.last()),
        !done0.contains(stack0.last() as int),
        sweeping(
            m,
            d,
            id,
            done0.insert(stack0.last() as int),
            stack0.drop_last() + m[stack0.last()].children,
        ),
{
    let x = stack0.last();
    let rest = stack0.drop_last();
    let kids = m[x].children;
    let stack = rest + kids;
    let done = done0.insert(x as int);
    assert(stack0[stack0.len() - 1] == x);
    // Each child of `x` is a live node under `id` that is neither swept yet
    // nor waiting on the stack.
    assert forall|j: int| 0 <= j < kids.len() implies m.contains_key(#[trigger] kids[j])
        && m[kids[j]].parent == Some(x) && ancestor_in(m, d, id, kids[j]) && !done.contains(
        kids[j] as int,
    ) && !rest.contains(kids[j]) && kids[j] != id by {
        let c = kids[j];
        assert(m.contains_key(m[x].children[j]));
        assert(d[x] < d[c]);
        if rest.contains(c) {
            let i = choose|i: int| 0 <= i < rest.len() && rest[i] == c;
            assert(stack0[i] == c);
        }
    }
    assert(stack.no_duplicates()) by {
        assert forall|i: int, j: int|
            0 <= i < stack.len() && 0 <= j < stack.len() && i != j implies stack[i]
            != stack[j] by {
            if i < rest.len() && j < rest.len() {
                assert(stack0[i] != stack0[j]);
            } else if i >= rest.len() && j >= rest.len() {
                assert(kids[i - rest.len()] != kids[j - rest.len()]);
            } else if i < rest.len() {
                assert(rest.contains(rest[i]));
                assert(!rest.contains(kids[j - rest.len()]));
            } else {
                assert(rest.contains(rest[j]));
                assert(!rest.contains(kids[i - rest.len()]));
            }
        }
    }
    assert forall|i: int| 0 <= i < stack.len() implies m.contains_key(#[trigger] stack[i])
        && ancestor_in(m, d, id, stack[i]) && !done.contains(stack[i] as int) && (stack[i] == id
        || (m[stack[i]].parent matches Some(p) && done.contains(p as int))) by {
        if i < rest.len() {
            assert(stack0[i] == stack[i]);
            assert(stack0[i] != stack0[stack0.len() - 1]);
        } else {
            assert(stack[i] == kids[i - rest.len()]);
        }
    }
    assert forall|z: NodeId| m.contains_key(z) && ancestor_in(m, d, id, z) implies done.contains(
        z as int,
    ) || exists|i: int| 0 <= i < stack.len() && ancestor_in(m, d, #[trigger] stack[i], z) by {
        if !done0.contains(z as int) && z != x {
            let i = choose|i: int|
                0 <= i < stack0.len() && ancestor_in(m, d, #[trigger] stack0[i], z);
            if i < rest.len() {
                assert(stack[i] == stack0[i]);
            } else {
                let c = lemma_ancestor_via_child(m, d, x, z);
                let j = choose|j: int| 0 <= j < kids.len() && kids[j] == c;
                assert(stack[rest.len() + j] == c);
            }
        }
    }
}

/// Whether `attrs` holds an attribute called `name`.
pub open spec fn has_attr(attrs: Seq<AttributeView>, name: Seq<char>) -> bool {
    exists|i: int| 0 <= i < attrs.len() && #[trigger] attrs[i].name == name
}

/// The position of the attribute called `name` in `attrs`, where it holds one.
pub open spec fn attr_pos(attrs: Seq<AttributeView>, name: Seq<char>) -> int {
    choose|i: int| 0 <= i < attrs.len() && #[trigger] attrs[i].name == name
}

/// The value of the attribute called `name` in `attrs`, if it holds one.
pub open spec fn attr_value(attrs: Seq<AttributeView>, name: Seq<char>) -> Option<Seq<char>> {
    if has_attr(attrs, name) {
        Some(attrs[attr_pos(attrs, name)].value)
    } else {
        None
    }
}

/// `attrs` after `name` has been set to `value`: overwritten in place where
/// `attrs` holds the name already, else added at the end.
pub open spec fn with_attr(attrs: Seq<AttributeView>, name: Seq<char>, value: Seq<char>) -> Seq<
    AttributeView,
> {
    if has_attr(attrs, name) {
        attrs.update(attr_pos(attrs, name), AttributeView { name, value })
    } else {
        attrs.push(AttributeView { name, value })
    }
}

/// `attrs` without the attribute called `name`.
pub open spec fn without_attr(attrs: Seq<AttributeView>, name: Seq<char>) -> Seq<AttributeView> {
    if has_attr(attrs, name) {
        attrs.remove(attr_pos(attrs, name))
    } else {
        attrs
    }
}

/// Setting an attribute keeps the names distinct, and the name then carries
/// the value.
pub proof fn lemma_with_attr(attrs: Seq<AttributeView>, name: Seq<char>, value: Seq<char>)
    requires
        attr_names(attrs).no_duplicates(),
    ensures
        attr_names(with_attr(attrs, name, value)).no_duplicates(),
        attr_value(with_attr(attrs, name, value), name) == Some(value),
        forall|other: Seq<char>|
            other != name ==> attr_value(with_attr(attrs, name, value), other) == attr_value(
                attrs,
                other,
            ),
{
    let r = with_attr(attrs, name, value);
    let at = if has_attr(attrs, name) {
        attr_pos(attrs, name)
    } else {
        attrs.len() as int
    };
    assert(r[at].name == name);
    assert forall|i: int, j: int|
        0 <= i < r.len() && 0 <= j < r.len() && i != j implies attr_names(r)[i] != attr_names(
        r,
    )[j] by {
        if i < attrs.len() && j < attrs.len() {
            assert(attr_names(attrs)[i] != attr_names(attrs)[j]);
        }
        if i < attrs.len() {
            assert(attrs[i].name == r[i].name);
        }
        if j < attrs.len() {
            assert(attrs[j].name == r[j].name);
        }
    }
    lemma_attr_pos_unique(r, name, at);
    assert forall|other: Seq<char>| other != name implies attr_value(r, other) == attr_value(
        attrs,
        other,
    ) by {
        if has_attr(attrs, other) {
            let i = attr_pos(attrs, other);
            assert(r[i].name == other);
            lemma_attr_pos_unique(r, other, i);
        }
        if has_attr(r, other) {
            let i = attr_pos(r, other);
            assert(attrs[i].name == other);
        }
    }
}

/// Among distinct names, a name stands at one position only.
pub proof fn lemma_attr_pos_unique(attrs: Seq<AttributeView>, name: Seq<char>, i: int)
    requires
        attr_names(attrs).no_duplicates(),
        0 <= i < attrs.len(),
        attrs[i].name == name,
    ensures
        has_attr(attrs, name),
        attr_pos(attrs, name) == i,
{
    let j = attr_pos(attrs, name);
    if i != j {
        assert(attr_names(attrs)[i] == attr_names(attrs)[j]);
    }
}

/// Deleting an attribute keeps the names distinct, and the name is then gone.
pub proof fn lemma_without_attr(attrs: Seq<AttributeView>, name: Seq<char>)
    requires
        attr_names(attrs).no_duplicates(),
    ensures
        attr_names(without_attr(attrs, name)).no_duplicates(),
        !has_attr(without_attr(attrs, name), name),
        forall|other: Seq<char>|
            other != name ==> attr_value(without_attr(attrs, name), other) == attr_value(
                attrs,
                other,
            ),
{
    let r = without_attr(attrs, name);
    if has_attr(attrs, name) {
        let at = attr_pos(attrs, name);
        assert forall|i: int| 0 <= i < r.len() implies #[trigger] r[i] == attrs[if i < at {
            i
        } else {
            i + 1
        }] by {}
        assert forall|i: int, j: int|
            0 <= i < r.len() && 0 <= j < r.len() && i != j implies attr_names(r)[i]
            != attr_names(r)[j] by {
            let si = if i < at { i } else { i + 1 };
            let sj = if j < at { j } else { j + 1 };
            assert(r[i] == attrs[si]);
            assert(r[j] == attrs[sj]);
            assert(attr_names(attrs)[si] != attr_names(attrs)[sj]);
        }
        if has_attr(r, name) {
            let i = attr_pos(r, name);
            let si = if i < at { i } else { i + 1 };
            assert(r[i] == attrs[si]);
            assert(attr_names(attrs)[si] == attr_names(attrs)[at]);
        }
        assert forall|other: Seq<char>| other != name implies attr_value(r, other) == attr_value(
            attrs,
            other,
        ) by {
            if has_attr(attrs, other) {
                let i = attr_pos(attrs, other);
                let ri = if i < at { i } else { i - 1 };
                assert(r[ri] == attrs[i]);
                lemma_attr_pos_unique(r, other, ri);
            }
            if has_attr(r, other) {
                let i = attr_pos(r, other);
                let si = if i < at { i } else { i + 1 };
                assert(r[i] == attrs[si]);
                lemma_attr_pos_unique(attrs, other, si);
            }
        }
    }
}

/// The position of the attribute called `name`, if `attrs` holds one.
pub fn find_attr(attrs: &Vec<Attribute>, name: &str) -> (at: Option<usize>)
    requires
        attr_names(attrs_view(attrs@)).no_duplicates(),
    ensures
        at is Some <==> has_attr(attrs_view(attrs@), name@),
        at matches Some(i) ==> i == attr_pos(attrs_view(attrs@), name@) && i < attrs.len(),
{
    let ghost views = attrs_view(attrs@);
    let mut i: usize = 0;
    while i < attrs.len()
        invariant
            i <= attrs.len(),
            views == attrs_view(attrs@),
            attr_names(views).no_duplicates(),
            forall|j: int| 0 <= j < i ==> views[j].name != name@,
        decreases attrs.len() - i,
    {
        if str_eq(attrs[i].name.as_str(), name) {
            proof {
                assert(views[i as int].name == name@);
                lemma_attr_pos_unique(views, name@, i as int);
            }
            return Some(i);
        }
        i = i + 1;
    }
    None
}

/// Whether `id` names a live `<style>` element.
pub open spec fn is_style_element(m: Map<NodeId, NodeView>, id: NodeId) -> bool {
    m.contains_key(id) && (m[id].data matches DataView::Element { tag, .. } && tag == "style"@)
}

/// Whether `id` names a live text node whose content is not `content`.
pub open spec fn text_differs(m: Map<NodeId, NodeView>, id: NodeId, content: Seq<char>) -> bool {
    m.contains_key(id) && (m[id].data matches DataView::Text(t) && t != content)
}

/// The element data `data` with the attribute list `attrs` in place of its
/// own.
pub open spec fn data_with_attrs(data: DataView, attrs: Seq<AttributeView>) -> DataView {
    match data {
        DataView::Element { tag, namespace, widget, .. } => DataView::Element {
            tag,
            namespace,
            attrs,
            widget,
        },
        other => other,
    }
}

/// The element data `data` with the widget state `widget` in place of its
/// own.
pub open spec fn data_with_widget(data: DataView, widget: WidgetView) -> DataView {
    match data {
        DataView::Element { tag, namespace, attrs, .. } => DataView::Element {
            tag,
            namespace,
            attrs,
            widget,
        },
        other => other,
    }
}

/// The attributes of an element, and none for another kind of node.
pub open spec fn attrs_of(data: DataView) -> Seq<AttributeView> {
    match data {
        DataView::Element { attrs, .. } => attrs,
        _ => Seq::empty(),
    }
}

/// The live nodes of `m`, with `data` as the data of `id`.
pub open spec fn with_data(m: Map<NodeId, NodeView>, id: NodeId, data: DataView) -> Map<
    NodeId,
    NodeView,
> {
    m.insert(id, NodeView { data, ..m[id] })
}

impl View for Arena {
    type V = Map<NodeId, NodeView>;

    /// The live nodes, by handle.
    closed spec fn view(&self) -> Map<NodeId, NodeView> {
        Map::new(
            |id: NodeId| id < self.slots.len() && self.slots[id as int] is Live,
            |id: NodeId| self.slots[id as int]->Live_0@,
        )
    }
}

impl Arena {
    /// The handles of removed nodes that have not been released yet.
    pub closed spec fn tombstones(&self) -> Set<NodeId> {
        Set::new(|id: NodeId| id < self.slots.len() && self.slots[id as int] is Removed)
    }

    /// The style signals raised and not yet taken, oldest first.
    pub closed spec fn pending(&self) -> Seq<StyleSignal> {
        self.signals@
    }

    /// A witness that the parent links hold no cycle: it grows strictly from
    /// parent to child.
    pub closed spec fn depth(&self) -> Map<NodeId, nat> {
        self.depth@
    }

    /// Whether `a` is `x` or an ancestor of `x`.
    pub open spec fn ancestor(&self, a: NodeId, x: NodeId) -> bool {
        ancestor_in(self@, self.depth(), a, x)
    }

    /// What the arena keeps true of its bookkeeping.
    pub closed spec fn inv(&self) -> bool {
        &&& self.free@.no_duplicates()
        &&& forall|x: NodeId| self.depth@.contains_key(x)
        &&& forall|i: int|
            0 <= i < self.free.len() ==> (#[trigger] self.free[i]) < self.slots.len()
                && self.slots[self.free[i] as int] is Vacant
    }

    /// The arena is well formed: the live nodes form a forest without cycles
    /// under unique attribute names, and the document root is in place.
    pub open spec fn wf(&self) -> bool {
        &&& forest(self@)
        &&& ranked(self@, self.depth())
        &&& unique_attribute_names(self@)
        &&& rooted(self@)
        &&& self.tombstones().disjoint(self@.dom())
        &&& self.inv()
    }

    /// An arena that holds the document root and nothing else.
    pub fn new() -> (arena: Arena)
        ensures
            arena.wf(),
            arena@ =~= map![ROOT => NodeView {
                parent: None,
                children: Seq::empty(),
                data: DataView::Document,
            }],
            arena.tombstones() =~= Set::empty(),
            arena.pending() =~= Seq::empty(),
    {
        let root = Node { parent: None, children: Vec::new(), data: NodeData::Document };
        let mut slots: Vec<Slot> = Vec::new();
        slots.push(Slot::Live(root));
        let arena = Arena {
            slots,
            free: Vec::new(),
            signals: Vec::new(),
            depth: Ghost(Map::total(|x: NodeId| 0nat)),
        };
        assert(arena@.dom() =~= set![ROOT]);
        arena
    }

    /// Whether `id` names a live node.
    pub fn contains(&self, id: NodeId) -> (live: bool)
        ensures
            live == self@.contains_key(id),
    {
        if id < self.slots.len() {
            match &self.slots[id] {
                Slot::Live(_) => true,
                _ => false,
            }
        } else {
            false
        }
    }

    /// The node that `id` names, if it is live.
    pub fn get_node(&self, id: NodeId) -> (node: Option<&Node>)
        ensures
            node is Some <==> self@.contains_key(id),
            node matches Some(n) ==> n@ == self@[id],
    {
        if id < self.slots.len() {
            match &self.slots[id] {
                Slot::Live(n) => Some(n),
                _ => None,
            }
        } else {
            None
        }
    }

    /// The handle of the document root.
    pub fn root_node(&self) -> (id: NodeId)
        ensures
            id == ROOT,
    {
        ROOT
    }

    /// Creates a node that holds `data`. The node starts detached: without a
    /// parent and without children. Its handle is one that names neither a
    /// live node nor a removed node whose handle is still reserved.
    pub fn create_node(&mut self, data: NodeData) -> (id: NodeId)
        requires
            old(self).wf(),
            !(data is Document),
            data matches NodeData::Element(e) ==> attr_names(attrs_view(e.attrs@)).no_duplicates(),
        ensures
            final(self).wf(),
            !old(self)@.contains_key(id),
            !old(self).tombstones().contains(id),
            final(self)@ == old(self)@.insert(
                id,
                NodeView { parent: None, children: Seq::empty(), data: data@ },
            ),
            final(self).tombstones() == old(self).tombstones(),
            final(self).pending() == old(self).pending(),
            forall|a: NodeId, x: NodeId|
                x != id ==> final(self).ancestor(a, x) == old(self).ancestor(a, x),
    {
        let node = Node { parent: None, children: Vec::new(), data };
        let ghost view = node@;
        let id = match self.free.pop() {
            Some(id) => {
                assert(old(self).free[old(self).free.len() - 1] == id);
                self.slots[id] = Slot::Live(node);
                id
            },
            None => {
                self.slots.push(Slot::Live(node));
                self.slots.len() - 1
            },
        };
        proof {
            self.depth@ = self.depth@.insert(id, 0nat);
            assert(self@ =~= old(self)@.insert(id, view));
            assert(self.tombstones() =~= old(self).tombstones());
            let (m1, d1, m2, d2) = (old(self)@, old(self).depth(), self@, self.depth());
            assert(forest(m2)) by {
                assert forall|p: NodeId, i: int|
                    m2.contains_key(p) && 0 <= i < m2[p].children.len() implies m2.contains_key(
                    #[trigger] m2[p].children[i],
                ) && m2[m2[p].children[i]].parent == Some(p) by {
                    assert(m1.contains_key(m1[p].children[i]));
                }
            }
            assert forall|a: NodeId, x: NodeId| x != id implies self.ancestor(a, x) == old(
                self,
            ).ancestor(a, x) by {
                if m1.contains_key(x) {
                    lemma_ancestor_frame(m1, d1, m2, d2, a, x);
                }
            }
        }
        id
    }

    /// Puts the detached node `node` into the child list of `parent` at
    /// position `index`, and makes `parent` its parent.
    fn link(&mut self, parent: NodeId, index: usize, node: NodeId)
        requires
            old(self).wf(),
            old(self)@.contains_key(parent),
            old(self)@.contains_key(node),
            node != ROOT,
            old(self)@[node].parent is None,
            index <= old(self)@[parent].children.len(),
            !old(self).ancestor(node, parent),
        ensures
            final(self).wf(),
            final(self)@ == linked(old(self)@, parent, index as int, node),
            final(self).tombstones() == old(self).tombstones(),
            final(self).pending() == old(self).pending(),
            forall|a: NodeId, x: NodeId|
                final(self).ancestor(a, x) == (old(self).ancestor(a, x) || (old(self).ancestor(
                    node,
                    x,
                ) && old(self).ancestor(a, parent))),
    {
        let ghost m1 = self@;
        let ghost d1 = self.depth();
        proof {
            assert(parent != node);
            if m1[parent].children.contains(node) {
                let i = choose|i: int|
                    0 <= i < m1[parent].children.len() && m1[parent].children[i] == node;
                assert(m1.contains_key(m1[parent].children[i]));
            }
            lemma_insert_distinct(m1[parent].children, index as int, node);
        }
        match &mut self.slots[parent] {
            Slot::Live(n) => {
                n.children.insert(index, node);
            },
            _ => {},
        }
        match &mut self.slots[node] {
            Slot::Live(n) => {
                n.parent = Some(parent);
            },
            _ => {},
        }
        proof {
            let bump = d1[parent] + 1;
            self.depth@ = Map::new(
                |x: NodeId| true,
                |x: NodeId|
                    if ancestor_in(m1, d1, node, x) {
                        d1[x] + bump
                    } else {
                        d1[x]
                    },
            );
            let m2 = self@;
            let d2 = self.depth();
            assert(m2 =~= linked(m1, parent, index as int, node));
            assert(m2.dom() =~= m1.dom());
            assert(self.tombstones() =~= old(self).tombstones());
            assert(ranked(m2, d2)) by {
                assert forall|id: NodeId| #[trigger] m2.contains_key(id) implies (
                m2[id].parent matches Some(p) ==> d2[p] < d2[id]) by {
                    if id != node {
                        if let Some(p) = m1[id].parent {
                            assert(ancestor_in(m1, d1, node, id) == ancestor_in(m1, d1, node, p));
                        }
                    }
                }
            }
            assert(forest(m2)) by {
                assert forall|id: NodeId| #[trigger] m2.contains_key(id) implies (
                m2[id].parent matches Some(p) ==> m2.contains_key(p) && m2[p].children.contains(
                    id,
                )) by {}
                assert forall|p: NodeId, i: int|
                    m2.contains_key(p) && 0 <= i < m2[p].children.len() implies m2.contains_key(
                    #[trigger] m2[p].children[i],
                ) && m2[m2[p].children[i]].parent == Some(p) by {
                    let c = m2[p].children[i];
                    if p == parent {
                        assert(m2[p].children.contains(c));
                        if c != node {
                            let j = choose|j: int|
                                0 <= j < m1[p].children.len() && m1[p].children[j] == c;
                            assert(m1.contains_key(m1[p].children[j]));
                        }
                    } else {
                        assert(m1.contains_key(m1[p].children[i]));
                    }
                }
            }
            assert(unique_attribute_names(m2));
            assert(rooted(m2));
            assert forall|a: NodeId, x: NodeId|
                self.ancestor(a, x) == (old(self).ancestor(a, x) || (old(self).ancestor(node, x)
                    && old(self).ancestor(a, parent))) by {
                lemma_link_ancestors(m1, d1, m2, d2, parent, node, a, x);
            }
        }
    }

    /// The parent of `id`, or nothing where `id` is not live or has no parent.
    pub fn parent(&self, id: NodeId) -> (p: Option<NodeId>)
        ensures
            p == (if self@.contains_key(id) {
                self@[id].parent
            } else {
                None
            }),
    {
        match self.get_node(id) {
            Some(n) => n.parent,
            None => None,
        }
    }

    /// The first child of `id`, or nothing where `id` is not live or has no
    /// children.
    pub fn first_child(&self, id: NodeId) -> (c: Option<NodeId>)
        ensures
            c == (if self@.contains_key(id) && self@[id].children.len() > 0 {
                Some(self@[id].children[0])
            } else {
                None
            }),
    {
        match self.get_node(id) {
            Some(n) => {
                if n.children.len() > 0 {
                    Some(n.children[0])
                } else {
                    None
                }
            },
            None => None,
        }
    }

    /// The position of `child` in the child list of its parent.
    pub fn child_index(&self, child: NodeId) -> (i: usize)
        requires
            self.wf(),
            self@.contains_key(child),
            self@[child].parent is Some,
        ensures
            i == self@[self@[child].parent->0].children.index_of(child),
            i < self@[self@[child].parent->0].children.len(),
            self@[self@[child].parent->0].children[i as int] == child,
    {
        let ghost siblings = self@[self@[child].parent->0].children;
        proof {
            assert(siblings.contains(child));
            assert(siblings.index_of(child) == choose|i: int|
                0 <= i < siblings.len() && siblings[i] == child);
        }
        let parent = match self.parent(child) {
            Some(p) => p,
            None => 0,
        };
        match self.get_node(parent) {
            Some(n) => {
                let mut i: usize = 0;
                while i < n.children.len() && n.children[i] != child
                    invariant
                        n.children@ == siblings,
                        i <= siblings.len(),
                        siblings.contains(child),
                        forall|j: int| 0 <= j < i ==> siblings[j] != child,
                    decreases siblings.len() - i,
                {
                    i = i + 1;
                }
                i
            },
            None => 0,
        }
    }

    /// The sibling that follows `id`, or nothing where `id` is not live, has
    /// no parent, or is the last child.
    pub fn next_sibling(&self, id: NodeId) -> (n: Option<NodeId>)
        requires
            self.wf(),
        ensures
            n == next_sibling_of(self@, id),
    {
        match self.parent(id) {
            Some(parent) => {
                let i = self.child_index(id);
                match self.get_node(parent) {
                    Some(p) => {
                        assert(p.children@ == self@[self@[id].parent->0].children);
                        if i < p.children.len() - 1 {
                            Some(p.children[i + 1])
                        } else {
                            None
                        }
                    },
                    None => None,
                }
            },
            None => None,
        }
    }

    /// Whether `a` is `x` or an ancestor of `x`, found by walking up from `x`.
    pub fn is_ancestor(&self, a: NodeId, x: NodeId) -> (r: bool)
        requires
            self.wf(),
        ensures
            r == self.ancestor(a, x),
    {
        let mut cur = x;
        loop
            invariant
                self.wf(),
                self.ancestor(a, cur) == self.ancestor(a, x),
            decreases self.depth()[cur],
        {
            if cur == a {
                return true;
            }
            match self.parent(cur) {
                Some(p) => {
                    cur = p;
                },
                None => {
                    return false;
                },
            }
        }
    }

    /// Whether one of `nodes` is `x` or an ancestor of `x`.
    pub open spec fn any_ancestor(&self, nodes: Seq<NodeId>, x: NodeId) -> bool {
        any_ancestor_in(self@, self.depth(), nodes, x)
    }

    /// Whether `nodes` can be put under `target`: they are distinct live
    /// nodes other than the document root, each detached, and none of them is
    /// `target` or one of its ancestors.
    pub open spec fn adoptable(&self, nodes: Seq<NodeId>, target: NodeId) -> bool {
        &&& nodes.no_duplicates()
        &&& !self.any_ancestor(nodes, target)
        &&& forall|k: int|
            0 <= k < nodes.len() ==> self@.contains_key(#[trigger] nodes[k]) && nodes[k] != ROOT
                && self@[nodes[k]].parent is None
    }

    /// Puts the detached nodes `new_nodes` into the tree, in order. With a
    /// reference node they go immediately before it in the child list of its
    /// parent; without one they go to the end of the child list of `parent`.
    /// Child list and parent links change together.
    pub fn insert_before(&mut self, parent: NodeId, new_nodes: &[NodeId], reference: Option<NodeId>)
        requires
            old(self).wf(),
            match reference {
                Some(r) => old(self)@.contains_key(r) && old(self)@[r].parent is Some,
                None => old(self)@.contains_key(parent),
            },
            old(self).adoptable(new_nodes@, insertion_parent(old(self)@, parent, reference)),
        ensures
            final(self).wf(),
            final(self)@ == spliced(
                old(self)@,
                insertion_parent(old(self)@, parent, reference),
                insertion_index(old(self)@, parent, reference),
                new_nodes@,
            ),
            final(self).tombstones() == old(self).tombstones(),
            final(self).pending() == old(self).pending(),
            forall|a: NodeId, x: NodeId|
                final(self).ancestor(a, x) == (old(self).ancestor(a, x) || (old(self).any_ancestor(
                    new_nodes@,
                    x,
                ) && old(self).ancestor(a, insertion_parent(old(self)@, parent, reference)))),
    {
        let ghost m0 = self@;
        let ghost d0 = self.depth();
        let ghost nodes = new_nodes@;
        let (target, index) = match reference {
            Some(r) => {
                let i = self.child_index(r);
                match self.parent(r) {
                    Some(p) => (p, i),
                    None => (parent, i),
                }
            },
            None => {
                match self.get_node(parent) {
                    Some(n) => (parent, n.children.len()),
                    None => (parent, 0),
                }
            },
        };
        assert(target == insertion_parent(m0, parent, reference));
        assert(index == insertion_index(m0, parent, reference));
        assert(m0.contains_key(target));
        let ghost before = m0[target].children.subrange(0, index as int);
        let ghost after = m0[target].children.subrange(index as int, m0[target].children.len() as int);
        assert(self@ =~= spliced(m0, target, index as int, nodes.take(0))) by {
            assert(before + nodes.take(0) + after =~= m0[target].children);
        }
        let mut k: usize = 0;
        while k < new_nodes.len()
            invariant
                k <= nodes.len(),
                nodes == new_nodes@,
                self.wf(),
                m0 == old(self)@,
                d0 == old(self).depth(),
                old(self).wf(),
                m0.contains_key(target),
                index <= m0[target].children.len(),
                before == m0[target].children.subrange(0, index as int),
                after == m0[target].children.subrange(
                    index as int,
                    m0[target].children.len() as int,
                ),
                old(self).adoptable(nodes, target),
                self@ == spliced(m0, target, index as int, nodes.take(k as int)),
                self.tombstones() == old(self).tombstones(),
                self.pending() == old(self).pending(),
                forall|a: NodeId, x: NodeId|
                    self.ancestor(a, x) == (ancestor_in(m0, d0, a, x) || (any_ancestor_in(
                        m0,
                        d0,
                        nodes.take(k as int),
                        x,
                    ) && ancestor_in(m0, d0, a, target))),
            decreases nodes.len() - k,
        {
            let node = new_nodes[k];
            let ghost cur = self@;
            let ghost done = nodes.take(k as int);
            proof {
                assert(ancestor_in(m0, d0, node, node));
                assert(node != target);
                assert(!done.contains(node)) by {
                    if done.contains(node) {
                        let j = choose|j: int| 0 <= j < done.len() && done[j] == node;
                        assert(nodes[j] == nodes[k as int]);
                    }
                }
                assert(!any_ancestor_in(m0, d0, done, target)) by {
                    if any_ancestor_in(m0, d0, done, target) {
                        let j = choose|j: int|
                            0 <= j < done.len() && ancestor_in(m0, d0, #[trigger] done[j], target);
                        assert(ancestor_in(m0, d0, nodes[j], target));
                    }
                }
                assert(!ancestor_in(m0, d0, node, target));
                assert(cur[target].children == before + done + after);
            }
            let room = match self.get_node(target) {
                Some(n) => n.children.len(),
                None => 0,
            };
            assert(index + k <= room);
            self.link(target, index + k, node);
            proof {
                let next = nodes.take(k + 1);
                assert(next =~= done.push(node));
                assert((before + done + after).insert(index + k, node) =~= before + next + after);
                assert forall|id: NodeId| next.contains(id) <==> done.contains(id) || id
                    == node by {
                    if next.contains(id) {
                        let j = choose|j: int| 0 <= j < next.len() && next[j] == id;
                        if j < k {
                            assert(done[j] == id);
                        }
                    }
                    if done.contains(id) {
                        let j = choose|j: int| 0 <= j < done.len() && done[j] == id;
                        assert(next[j] == id);
                    }
                    if id == node {
                        assert(next[k as int] == id);
                    }
                }
                assert(self@ =~= spliced(m0, target, index as int, next));
                assert forall|a: NodeId, x: NodeId|
                    self.ancestor(a, x) == (ancestor_in(m0, d0, a, x) || (any_ancestor_in(
                        m0,
                        d0,
                        next,
                        x,
                    ) && ancestor_in(m0, d0, a, target))) by {
                    if any_ancestor_in(m0, d0, done, x) {
                        let j = choose|j: int|
                            0 <= j < done.len() && ancestor_in(m0, d0, #[trigger] done[j], x);
                        assert(ancestor_in(m0, d0, next[j], x));
                    }
                    if ancestor_in(m0, d0, node, x) {
                        assert(ancestor_in(m0, d0, next[k as int], x));
                    }
                    if any_ancestor_in(m0, d0, next, x) {
                        let j = choose|j: int|
                            0 <= j < next.len() && ancestor_in(m0, d0, #[trigger] next[j], x);
                        if j < k {
                            assert(ancestor_in(m0, d0, done[j], x));
                        }
                    }
                }
            }
            k = k + 1;
        }
        assert(nodes.take(k as int) =~= nodes);
    }

    /// Takes `id` out of the child list of its parent, where it has one, and
    /// leaves it without a parent. What stands under `id` stays under it.
    fn unlink(&mut self, id: NodeId)
        requires
            old(self).wf(),
            old(self)@.contains_key(id),
        ensures
            final(self).wf(),
            final(self)@ == unlinked(old(self)@, id),
            final(self).depth() == old(self).depth(),
            final(self).tombstones() == old(self).tombstones(),
            final(self).pending() == old(self).pending(),
            final(self).slots.len() == old(self).slots.len(),
            final(self).free == old(self).free,
            forall|a: NodeId, x: NodeId|
                final(self).ancestor(a, x) == if old(self).ancestor(id, x) {
                    old(self).ancestor(a, x) && old(self).ancestor(id, a)
                } else {
                    old(self).ancestor(a, x)
                },
    {
        let ghost m1 = self@;
        let ghost d1 = self.depth();
        match self.parent(id) {
            Some(parent) => {
                let i = self.child_index(id);
                proof {
                    lemma_remove_distinct(m1[parent].children, i as int);
                    assert(parent != id);
                }
                match &mut self.slots[parent] {
                    Slot::Live(n) => {
                        n.children.remove(i);
                    },
                    _ => {},
                }
                match &mut self.slots[id] {
                    Slot::Live(n) => {
                        n.parent = None;
                    },
                    _ => {},
                }
                proof {
                    let m2 = self@;
                    assert(m2 =~= unlinked(m1, id));
                    assert(self.tombstones() =~= old(self).tombstones());
                    assert(forest(m2)) by {
                        assert forall|x: NodeId| #[trigger] m2.contains_key(x) implies (
                        m2[x].parent matches Some(p) ==> m2.contains_key(p)
                            && m2[p].children.contains(x)) by {}
                        assert forall|p: NodeId, j: int|
                            m2.contains_key(p) && 0 <= j < m2[p].children.len() implies m2.contains_key(
                            #[trigger] m2[p].children[j],
                        ) && m2[m2[p].children[j]].parent == Some(p) by {
                            let c = m2[p].children[j];
                            assert(m2[p].children.contains(c));
                            let k = choose|k: int|
                                0 <= k < m1[p].children.len() && m1[p].children[k] == c;
                            assert(m1.contains_key(m1[p].children[k]));
                        }
                    }
                }
            },
            None => {
                assert(self@ =~= unlinked(m1, id));
            },
        }
        proof {
            let m2 = self@;
            assert(m2.dom() =~= m1.dom());
            assert forall|a: NodeId, x: NodeId|
                self.ancestor(a, x) == if old(self).ancestor(id, x) {
                    old(self).ancestor(a, x) && old(self).ancestor(id, a)
                } else {
                    old(self).ancestor(a, x)
                } by {
                lemma_unlink_ancestors(m1, d1, m2, id, a, x);
            }
        }
    }

    /// Removes `id` and everything under it from the tree. The node leaves
    /// the child list of its parent, and the handles of the removed nodes stop
    /// naming live nodes. They stay reserved, so that no later node takes one
    /// of them, until [`Arena::release`] frees them. Returns `id`, the root of
    /// what was removed.
    pub fn remove_node(&mut self, id: NodeId) -> (removed: NodeId)
        requires
            old(self).wf(),
            old(self)@.contains_key(id),
            id != ROOT,
        ensures
            removed == id,
            final(self).wf(),
            final(self)@ == pruned(old(self)@, old(self).depth(), id),
            final(self).tombstones() == old(self).tombstones().union(
                subtree(old(self)@, old(self).depth(), id),
            ),
            final(self).pending() == old(self).pending(),
            forall|a: NodeId, x: NodeId|
                final(self)@.contains_key(x) ==> final(self).ancestor(a, x) == old(self).ancestor(
                    a,
                    x,
                ),
    {
        self.unlink(id);
        let ghost s1 = *self;
        let ghost m1 = self@;
        let ghost d1 = self.depth();
        let ghost mut done: Set<int> = Set::empty();
        let mut stack: Vec<NodeId> = Vec::new();
        stack.push(id);
        proof {
            assert(ancestor_in(m1, d1, id, id));
            assert(stack@[0] == id);
        }
        while stack.len() > 0
            invariant
                s1.wf(),
                m1 == s1@,
                d1 == s1.depth(),
                m1.contains_key(id),
                m1[id].parent is None,
                self.slots.len() == s1.slots.len(),
                self.free == s1.free,
                self.signals == s1.signals,
                self.depth == s1.depth,
                done.finite(),
                forall|i: int| done.contains(i) ==> 0 <= i < self.slots.len(),
                s1.swept(*self, done),
                sweeping(m1, d1, id, done, stack@),
            decreases self.slots.len() - done.len(),
        {
            let ghost stack0 = stack@;
            let ghost done0 = done;
            let top = stack.pop();
            let x = match top {
                Some(x) => x,
                None => 0,
            };
            assert(stack0[stack0.len() - 1] == x);
            assert(stack@ == stack0.drop_last());
            assert(self.slots[x as int] == s1.slots[x as int]);
            match &self.slots[x] {
                Slot::Live(n) => {
                    push_all(&mut stack, &n.children);
                },
                _ => {},
            }
            self.slots[x] = Slot::Removed;
            proof {
                lemma_sweep_step(m1, d1, id, done0, stack0);
                done = done0.insert(x as int);
                lemma_int_range(0, self.slots.len() as int);
                lemma_len_subset(done, set_int_range(0, self.slots.len() as int));
            }
        }
        proof {
            assert forall|x: NodeId| m1.contains_key(x) implies (done.contains(x as int)
                <==> ancestor_in(m1, d1, id, x)) by {}
            s1.lemma_swept(*self, id, done);
            let m0 = old(self)@;
            let d0 = old(self).depth();
            assert forall|x: NodeId|
                ancestor_in(m1, d1, id, x) == ancestor_in(m0, d0, id, x) by {
                assert(ancestor_in(m0, d0, id, id));
                assert(old(self).ancestor(id, x) == ancestor_in(m0, d0, id, x));
                assert(s1.ancestor(id, x) == ancestor_in(m1, d1, id, x));
            }
            assert(self@ =~= pruned(m0, d0, id));
            assert(self.tombstones() =~= old(self).tombstones().union(subtree(m0, d0, id)));
            assert forall|a: NodeId, x: NodeId| self@.contains_key(x) implies self.ancestor(a, x)
                == old(self).ancestor(a, x) by {
                assert(self.ancestor(a, x) == s1.ancestor(a, x));
                assert(!old(self).ancestor(id, x));
            }
        }
        id
    }

    /// How the arena `now` relates to `self` while the nodes of `done` have
    /// been swept out of it.
    closed spec fn swept(&self, now: Arena, done: Set<int>) -> bool {
        forall|i: int|
            0 <= i < self.slots.len() ==> #[trigger] now.slots[i] == if done.contains(i) {
                Slot::Removed
            } else {
                self.slots[i]
            }
    }

    /// Sweeping the whole tree of a detached node out of a well-formed arena
    /// leaves a well-formed arena that holds the other nodes unchanged.
    proof fn lemma_swept(&self, now: Arena, id: NodeId, done: Set<int>)
        requires
            self.wf(),
            self@.contains_key(id),
            self@[id].parent is None,
            id != ROOT,
            now.slots.len() == self.slots.len(),
            now.free == self.free,
            now.signals == self.signals,
            now.depth == self.depth,
            self.swept(now, done),
            forall|i: int| done.contains(i) ==> 0 <= i < self.slots.len(),
            forall|x: NodeId|
                self@.contains_key(x) ==> (done.contains(x as int) <==> self.ancestor(id, x)),
            forall|x: NodeId| done.contains(x as int) ==> self@.contains_key(x),
        ensures
            now.wf(),
            now@ == self@.remove_keys(subtree(self@, self.depth(), id)),
            now.tombstones() == self.tombstones().union(subtree(self@, self.depth(), id)),
            now.pending() == self.pending(),
            forall|a: NodeId, x: NodeId|
                now@.contains_key(x) ==> now.ancestor(a, x) == self.ancestor(a, x),
    {
        let m1 = self@;
        let d1 = self.depth();
        let m2 = now@;
        let d2 = now.depth();
        assert forall|x: NodeId| m2.contains_key(x) <==> m1.contains_key(x) && !ancestor_in(
            m1,
            d1,
            id,
            x,
        ) by {
            if x < self.slots.len() {
                assert(now.slots[x as int] == if done.contains(x as int) {
                    Slot::Removed
                } else {
                    self.slots[x as int]
                });
            }
        }
        assert forall|x: NodeId| m2.contains_key(x) implies m2[x] == m1[x] by {
            assert(now.slots[x as int] == self.slots[x as int]);
        }
        assert(m2 =~= m1.remove_keys(subtree(m1, d1, id)));
        assert(now.tombstones() =~= self.tombstones().union(subtree(m1, d1, id))) by {
            assert forall|x: NodeId|
                now.tombstones().contains(x) <==> self.tombstones().union(
                    subtree(m1, d1, id),
                ).contains(x) by {
                if x < self.slots.len() {
                    assert(now.slots[x as int] == if done.contains(x as int) {
                        Slot::Removed
                    } else {
                        self.slots[x as int]
                    });
                }
            }
        }
        assert(forest(m2)) by {
            assert forall|x: NodeId| #[trigger] m2.contains_key(x) implies (
            m2[x].parent matches Some(p) ==> m2.contains_key(p) && m2[p].children.contains(
                x,
            )) by {
                assert(m2[x] == m1[x]);
                if let Some(p) = m1[x].parent {
                    assert(m1.contains_key(p));
                    assert(ancestor_in(m1, d1, id, x) == (id == x || ancestor_in(m1, d1, id, p)));
                    assert(m2[p] == m1[p]);
                }
            }
            assert forall|p: NodeId, j: int|
                m2.contains_key(p) && 0 <= j < m2[p].children.len() implies m2.contains_key(
                #[trigger] m2[p].children[j],
            ) && m2[m2[p].children[j]].parent == Some(p) by {
                assert(m2[p] == m1[p]);
                let c = m1[p].children[j];
                assert(m1.contains_key(c));
                assert(ancestor_in(m1, d1, id, c) == (id == c || ancestor_in(m1, d1, id, p)));
                assert(m2[c] == m1[c]);
            }
            assert forall|p: NodeId| #[trigger]
                m2.contains_key(p) implies m2[p].children.no_duplicates() by {
                assert(m2[p] == m1[p]);
            }
        }
        assert(ranked(m2, d2)) by {
            assert forall|x: NodeId| #[trigger] m2.contains_key(x) implies (
            m2[x].parent matches Some(p) ==> d2[p] < d2[x]) by {
                assert(m2[x] == m1[x]);
            }
        }
        assert(unique_attribute_names(m2)) by {
            assert forall|x: NodeId| #[trigger] m2.contains_key(x) implies (
            m2[x].data matches DataView::Element { attrs, .. } ==> attr_names(
                attrs,
            ).no_duplicates()) by {
                assert(m2[x] == m1[x]);
            }
        }
        assert(rooted(m2)) by {
            assert(!ancestor_in(m1, d1, id, ROOT));
            assert(m2.contains_key(ROOT));
            assert(m2[ROOT] == m1[ROOT]);
            assert forall|x: NodeId| #[trigger] m2.contains_key(x) implies (m2[x].data is Document
                <==> x == ROOT) by {
                assert(m2[x] == m1[x]);
            }
        }
        assert(now.inv()) by {
            assert forall|i: int| 0 <= i < now.free.len() implies (#[trigger] now.free[i])
                < now.slots.len() && now.slots[now.free[i] as int] is Vacant by {
                let f = self.free[i];
                assert(self.slots[f as int] is Vacant);
                assert(now.slots[f as int] == if done.contains(f as int) {
                    Slot::Removed
                } else {
                    self.slots[f as int]
                });
            }
        }
        assert(now.tombstones().disjoint(m2.dom()));
        assert forall|a: NodeId, x: NodeId| m2.contains_key(x) implies now.ancestor(a, x)
            == self.ancestor(a, x) by {
            assert forall|y: NodeId|
                m1.contains_key(y) && #[trigger] ancestor_in(m1, d1, y, x) implies m2.contains_key(
                y,
            ) && m2[y].parent == m1[y].parent by {
                if ancestor_in(m1, d1, id, y) {
                    lemma_ancestor_trans(m1, d1, id, y, x);
                }
                assert(m2[y] == m1[y]);
            }
            lemma_ancestor_frame(m1, d1, m2, d2, a, x);
        }
    }

    /// A change to the data of the one node `id` keeps the arena well formed
    /// and leaves every link as it was.
    proof fn lemma_data_changed(&self, now: Arena, id: NodeId)
        requires
            self.wf(),
            self@.contains_key(id),
            now.slots.len() == self.slots.len(),
            now.free == self.free,
            now.depth == self.depth,
            forall|i: int|
                0 <= i < self.slots.len() && i != id ==> #[trigger] now.slots[i] == self.slots[i],
            now.slots[id as int] is Live,
            now.slots[id as int]->Live_0.parent == self.slots[id as int]->Live_0.parent,
            now.slots[id as int]->Live_0.children == self.slots[id as int]->Live_0.children,
            now.slots[id as int]->Live_0.data@ is Document == self@[id].data is Document,
            now.slots[id as int]->Live_0.data@ matches DataView::Element { attrs, .. }
                ==> attr_names(attrs).no_duplicates(),
        ensures
            forest(now@),
            ranked(now@, now.depth()),
            unique_attribute_names(now@),
            rooted(now@),
            now.tombstones().disjoint(now@.dom()),
            now.inv(),
            now@ == with_data(self@, id, now.slots[id as int]->Live_0.data@),
            now.tombstones() == self.tombstones(),
            forall|a: NodeId, x: NodeId| now.ancestor(a, x) == self.ancestor(a, x),
    {
        let m1 = self@;
        let m2 = now@;
        assert(m2 =~= with_data(m1, id, now.slots[id as int]->Live_0.data@));
        assert(now.tombstones() =~= self.tombstones());
        assert(forest(m2)) by {
            assert forall|p: NodeId, j: int|
                m2.contains_key(p) && 0 <= j < m2[p].children.len() implies m2.contains_key(
                #[trigger] m2[p].children[j],
            ) && m2[m2[p].children[j]].parent == Some(p) by {
                assert(m1.contains_key(m1[p].children[j]));
            }
        }
        assert forall|a: NodeId, x: NodeId| now.ancestor(a, x) == self.ancestor(a, x) by {
            if m1.contains_key(x) {
                lemma_ancestor_frame(m1, self.depth(), m2, now.depth(), a, x);
            }
        }
    }

    /// Sets the content of the text node `id` to `content`, if it differs
    /// from what the node holds: setting the same content again changes
    /// nothing. A node of another kind is left alone. Where the content of a
    /// child of a `<style>` element changes, the element's stylesheet is
    /// signalled as stale.
    pub fn set_text(&mut self, id: NodeId, content: &str)
        requires
            old(self).wf(),
            old(self)@.contains_key(id),
        ensures
            final(self).wf(),
            final(self)@ == (if text_differs(old(self)@, id, content@) {
                with_data(old(self)@, id, DataView::Text(content@))
            } else {
                old(self)@
            }),
            final(self).pending() == (if text_differs(old(self)@, id, content@) && (
            old(self)@[id].parent matches Some(p) && is_style_element(old(self)@, p)) {
                old(self).pending().push(StyleSignal::Stylesheet(old(self)@[id].parent->0))
            } else {
                old(self).pending()
            }),
            !text_differs(old(self)@, id, content@) ==> *final(self) == *old(self),
            final(self).tombstones() == old(self).tombstones(),
            forall|a: NodeId, x: NodeId| final(self).ancestor(a, x) == old(self).ancestor(a, x),
    {
        let (differs, parent) = match self.get_node(id) {
            Some(n) => match &n.data {
                NodeData::Text(t) => (!str_eq(t.as_str(), content), n.parent),
                _ => (false, None),
            },
            None => (false, None),
        };
        if differs {
            let text = String::from_str(content);
            match &mut self.slots[id] {
                Slot::Live(n) => {
                    n.data = NodeData::Text(text);
                },
                _ => {},
            }
            proof {
                old(self).lemma_data_changed(*self, id);
            }
            match parent {
                Some(p) => {
                    if self.is_style_node(p) {
                        self.signals.push(StyleSignal::Stylesheet(p));
                    }
                },
                None => {},
            }
            proof {
                assert(self@ == with_data(old(self)@, id, DataView::Text(content@)));
            }
        }
    }

    /// Whether `id` names a live `<style>` element.
    pub fn is_style_node(&self, id: NodeId) -> (r: bool)
        ensures
            r == is_style_element(self@, id),
    {
        match self.get_node(id) {
            Some(n) => match &n.data {
                NodeData::Element(e) => str_eq(e.tag.as_str(), "style"),
                _ => false,
            },
            None => false,
        }
    }

    /// Sets the attribute `name` of the element `id` to `value` in its
    /// attribute list: an attribute of that name is overwritten, else a new
    /// one is added at the end.
    pub fn put_attribute(&mut self, id: NodeId, name: &str, value: &str)
        requires
            old(self).wf(),
            old(self)@.contains_key(id),
            old(self)@[id].data is Element,
        ensures
            final(self).wf(),
            final(self)@ == with_data(
                old(self)@,
                id,
                data_with_attrs(
                    old(self)@[id].data,
                    with_attr(attrs_of(old(self)@[id].data), name@, value@),
                ),
            ),
            final(self).pending() == old(self).pending(),
            final(self).tombstones() == old(self).tombstones(),
            forall|a: NodeId, x: NodeId| final(self).ancestor(a, x) == old(self).ancestor(a, x),
    {
        let ghost before = attrs_of(self@[id].data);
        proof {
            lemma_with_attr(before, name@, value@);
        }
        match &mut self.slots[id] {
            Slot::Live(n) => match &mut n.data {
                NodeData::Element(e) => {
                    assert(attrs_view(e.attrs@) == before);
                    match find_attr(&e.attrs, name) {
                        Some(i) => {
                            let ghost list = e.attrs@;
                            let kept = String::from_str(name);
                            e.attrs[i] = Attribute { name: kept, value: String::from_str(value) };
                            assert(attrs_view(e.attrs@) =~= with_attr(before, name@, value@));
                        },
                        None => {
                            let ghost list = e.attrs@;
                            e.attrs.push(
                                Attribute {
                                    name: String::from_str(name),
                                    value: String::from_str(value),
                                },
                            );
                            assert(attrs_view(e.attrs@) =~= with_attr(before, name@, value@));
                        },
                    }
                },
                _ => {},
            },
            _ => {},
        }
        proof {
            old(self).lemma_data_changed(*self, id);
        }
    }

    /// Deletes the attribute `name` from the attribute list of the element
    /// `id`, where the list holds it.
    pub fn delete_attribute(&mut self, id: NodeId, name: &str)
        requires
            old(self).wf(),
            old(self)@.contains_key(id),
            old(self)@[id].data is Element,
        ensures
            final(self).wf(),
            final(self)@ == with_data(
                old(self)@,
                id,
                data_with_attrs(
                    old(self)@[id].data,
                    without_attr(attrs_of(old(self)@[id].data), name@),
                ),
            ),
            final(self).pending() == old(self).pending(),
            final(self).tombstones() == old(self).tombstones(),
            forall|a: NodeId, x: NodeId| final(self).ancestor(a, x) == old(self).ancestor(a, x),
    {
        let ghost before = attrs_of(self@[id].data);
        proof {
            lemma_without_attr(before, name@);
        }
        match &mut self.slots[id] {
            Slot::Live(n) => match &mut n.data {
                NodeData::Element(e) => {
                    assert(attrs_view(e.attrs@) == before);
                    match find_attr(&e.attrs, name) {
                        Some(i) => {
                            e.attrs.remove(i);
                            assert(attrs_view(e.attrs@) =~= without_attr(before, name@));
                        },
                        None => {},
                    }
                },
                _ => {},
            },
            _ => {},
        }
        proof {
            old(self).lemma_data_changed(*self, id);
        }
    }

    /// Sets the widget state of the element `id`.
    pub fn set_widget(&mut self, id: NodeId, widget: Widget)
        requires
            old(self).wf(),
            old(self)@.contains_key(id),
            old(self)@[id].data is Element,
        ensures
            final(self).wf(),
            final(self)@ == with_data(
                old(self)@,
                id,
                data_with_widget(old(self)@[id].data, widget@),
            ),
            final(self).pending() == old(self).pending(),
            final(self).tombstones() == old(self).tombstones(),
            forall|a: NodeId, x: NodeId| final(self).ancestor(a, x) == old(self).ancestor(a, x),
    {
        match &mut self.slots[id] {
            Slot::Live(n) => match &mut n.data {
                NodeData::Element(e) => {
                    e.widget = widget;
                },
                _ => {},
            },
            _ => {},
        }
        proof {
            old(self).lemma_data_changed(*self, id);
        }
    }

    /// Raises a style signal for the host to forward.
    pub fn signal(&mut self, signal: StyleSignal)
        requires
            old(self).wf(),
        ensures
            final(self).wf(),
            final(self)@ == old(self)@,
            final(self).pending() == old(self).pending().push(signal),
            final(self).tombstones() == old(self).tombstones(),
            forall|a: NodeId, x: NodeId| final(self).ancestor(a, x) == old(self).ancestor(a, x),
    {
        self.signals.push(signal);
        assert(self@ =~= old(self)@);
        assert(self.tombstones() =~= old(self).tombstones());
    }

    /// Hands out the style signals raised since the last call, oldest first,
    /// and forgets them.
    pub fn take_signals(&mut self) -> (signals: Vec<StyleSignal>)
        requires
            old(self).wf(),
        ensures
            final(self).wf(),
            signals@ == old(self).pending(),
            final(self).pending() == Seq::<StyleSignal>::empty(),
            final(self)@ == old(self)@,
            final(self).tombstones() == old(self).tombstones(),
            forall|a: NodeId, x: NodeId| final(self).ancestor(a, x) == old(self).ancestor(a, x),
    {
        let mut taken: Vec<StyleSignal> = Vec::new();
        core::mem::swap(&mut taken, &mut self.signals);
        assert(self@ =~= old(self)@);
        assert(self.tombstones() =~= old(self).tombstones());
        taken
    }

    /// Frees the handles of all removed nodes: from now on new nodes may take
    /// them. Live nodes are not touched.
    pub fn release(&mut self)
        requires
            old(self).wf(),
        ensures
            final(self).wf(),
            final(self)@ == old(self)@,
            final(self).tombstones() == Set::<NodeId>::empty(),
            final(self).pending() == old(self).pending(),
            forall|a: NodeId, x: NodeId| final(self).ancestor(a, x) == old(self).ancestor(a, x),
    {
        let mut i: usize = 0;
        while i < self.slots.len()
            invariant
                old(self).wf(),
                i <= self.slots.len(),
                self.slots.len() == old(self).slots.len(),
                self.signals == old(self).signals,
                self.depth == old(self).depth,
                self.free@.no_duplicates(),
                forall|k: int|
                    0 <= k < self.free.len() ==> (#[trigger] self.free[k]) < self.slots.len()
                        && self.slots[self.free[k] as int] is Vacant,
                forall|k: int|
                    0 <= k < self.slots.len() ==> #[trigger] self.slots[k] == if k < i && old(
                        self,
                    ).slots[k] is Removed {
                        Slot::Vacant
                    } else {
                        old(self).slots[k]
                    },
            decreases self.slots.len() - i,
        {
            let dead = match &self.slots[i] {
                Slot::Removed => true,
                _ => false,
            };
            if dead {
                proof {
                    if self.free@.contains(i) {
                        let k = choose|k: int| 0 <= k < self.free.len() && self.free[k] == i;
                        assert(self.slots[self.free[k] as int] is Vacant);
                    }
                }
                let ghost free0 = self.free@;
                self.slots[i] = Slot::Vacant;
                self.free.push(i);
                proof {
                    assert forall|j: int, k: int|
                        0 <= j < self.free.len() && 0 <= k < self.free.len() && j
                            != k implies self.free[j] != self.free[k] by {
                        if j < free0.len() {
                            assert(free0.contains(free0[j]));
                        }
                        if k < free0.len() {
                            assert(free0.contains(free0[k]));
                        }
                    }
                    assert forall|k: int| 0 <= k < self.free.len() implies (
                    #[trigger] self.free[k]) < self.slots.len()
                        && self.slots[self.free[k] as int] is Vacant by {
                        if k < free0.len() {
                            assert(free0[k] == self.free[k]);
                            assert(free0.contains(free0[k]));
                        }
                    }
                }
            }
            i = i + 1;
        }
        proof {
            assert forall|k: int| 0 <= k < self.slots.len() implies (self.slots[k] is Live
                <==> old(self).slots[k] is Live) && (self.slots[k] is Live ==> self.slots[k]
                == old(self).slots[k]) && !(self.slots[k] is Removed) by {
                assert(self.slots[k] == if k < i && old(self).slots[k] is Removed {
                    Slot::Vacant
                } else {
                    old(self).slots[k]
                });
            }
            assert(self@ =~= old(self)@);
            assert(self.tombstones() =~= Set::<NodeId>::empty());
        }
    }

    /// Whether `id` names a live element.
    pub fn is_element(&self, id: NodeId) -> (r: bool)
        ensures
            r == (self@.contains_key(id) && self@[id].data is Element),
    {
        match self.get_node(id) {
            Some(n) => {
                assert(n@.data == n.data@);
                match &n.data {
                    NodeData::Element(_) => true,
                    _ => false,
                }
            },
            None => false,
        }
    }

    /// Whether `id` names a live text node.
    pub fn is_text(&self, id: NodeId) -> (r: bool)
        ensures
            r == (self@.contains_key(id) && self@[id].data is Text),
    {
        match self.get_node(id) {
            Some(n) => {
                assert(n@.data == n.data@);
                match &n.data {
                    NodeData::Text(_) => true,
                    _ => false,
                }
            },
            None => false,
        }
    }

    /// Whether `id` names a live comment.
    pub fn is_comment(&self, id: NodeId) -> (r: bool)
        ensures
            r == (self@.contains_key(id) && self@[id].data is Comment),
    {
        match self.get_node(id) {
            Some(n) => {
                assert(n@.data == n.data@);
                match &n.data {
                    NodeData::Comment => true,
                    _ => false,
                }
            },
            None => false,
        }
    }

    /// The forest invariant, seen from a child list: the node at each
    /// position of the child list of a live node is live, has that node as
    /// its parent, and stands at no other position of the list and in no
    /// other child list.
    pub proof fn lemma_one_parent(&self, parent: NodeId, at: int)
        requires
            self.wf(),
            self@.contains_key(parent),
            0 <= at < self@[parent].children.len(),
        ensures
            self@.contains_key(self@[parent].children[at]),
            self@[self@[parent].children[at]].parent == Some(parent),
            forall|j: int|
                0 <= j < self@[parent].children.len() && j != at ==> self@[parent].children[j]
                    != self@[parent].children[at],
            forall|other: NodeId, j: int|
                self@.contains_key(other) && other != parent && 0 <= j
                    < self@[other].children.len() ==> #[trigger] self@[other].children[j]
                    != self@[parent].children[at],
    {
        let child = self@[parent].children[at];
        assert(self@.contains_key(self@[parent].children[at]));
        assert forall|other: NodeId, j: int|
            self@.contains_key(other) && other != parent && 0 <= j
                < self@[other].children.len() implies #[trigger] self@[other].children[j]
            != child by {
            assert(self@.contains_key(self@[other].children[j]));
        }
    }

    /// The forest invariant, seen from a node: a live node that has a
    /// parent stands in the child list of that parent, which is live and is
    /// no node under it.
    pub proof fn lemma_parent_holds_child(&self, id: NodeId)
        requires
            self.wf(),
            self@.contains_key(id),
            self@[id].parent is Some,
        ensures
            self@.contains_key(self@[id].parent->0),
            self@[self@[id].parent->0].children.contains(id),
            !self.ancestor(id, self@[id].parent->0),
    {
        let parent = self@[id].parent->0;
        if self.ancestor(id, parent) {
            lemma_ancestor_depth(self@, self.depth(), id, parent);
        }
    }
}

} // verus!
