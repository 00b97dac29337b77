//! Typed handles on the nodes of an arena, with the operations of a document
//! object model: creating nodes, linking them, and writing their attributes
//! and text.
//!
//! A handle is a node's index and nothing else. Every operation takes the
//! arena that it works on, so shared and exclusive access to the document are
//! told apart by the borrow it is given.
use crate::arena::{
    attrs_view, insertion_index, insertion_parent, is_style_element, next_sibling_of,
    text_differs, with_attr, with_data, without_attr, Arena, DataView, ElementData, NodeData,
    NodeId, StyleSignal, Widget, WidgetView, ROOT,
};
use crate::text::str_eq;
use vstd::prelude::*;
use vstd::string::*;

verus! {

/// A handle on a node of any kind.
#[derive(Clone, Copy, Debug, PartialEq, Eq, Structural)]
pub struct Node(pub NodeId);

/// A handle on an element.
#[derive(Clone, Copy, Debug, PartialEq, Eq, Structural)]
pub struct Element(pub Node);

/// A handle on a text node.
#[derive(Clone, Copy, Debug, PartialEq, Eq, Structural)]
pub struct Text(pub Node);

/// A handle on a comment, the placeholder that marks a position in a child
/// list.
#[derive(Clone, Copy, Debug, PartialEq, Eq, Structural)]
pub struct Comment(pub Node);

/// A handle on the document, through which nodes are created.
#[derive(Clone, Copy, Debug, PartialEq, Eq, Structural)]
pub struct Document(pub Node);

/// The window that shows a document.
#[derive(Clone, Copy, Debug, PartialEq, Eq, Structural)]
pub struct Window {
    doc: Document,
}

/// The handle in an optional node.
pub open spec fn opt_id(node: Option<&Node>) -> Option<NodeId> {
    match node {
        Some(n) => Some(n.0),
        None => None,
    }
}

/// The characters of an optional string.
pub open spec fn opt_text(s: Option<&str>) -> Option<Seq<char>> {
    match s {
        Some(s) => Some(s@),
        None => None,
    }
}

/// The text that stands for a truth value in an attribute.
pub open spec fn bool_text(b: bool) -> Seq<char> {
    if b {
        "true"@
    } else {
        "false"@
    }
}

/// The truth value that an attribute value stands for, if it is one of the
/// two texts that stand for one.
pub open spec fn parse_bool(s: Seq<char>) -> Option<bool> {
    if s == "true"@ {
        Some(true)
    } else if s == "false"@ {
        Some(false)
    } else {
        None
    }
}

/// The data of a node after its attribute `name` has been written with
/// `value`.
///
/// On an `<input>`, `checked` is routed to the widget state: the value must
/// read as a truth value, else the write is dropped. A checkbox takes the
/// value as its state and keeps its attribute list; an input without widget
/// state keeps it as an ordinary attribute, to be picked up when the widget
/// state is made; a text input ignores it. Every other write sets the
/// attribute in the list, and `value` also becomes the text of a text input.
pub open spec fn attribute_written(data: DataView, name: Seq<char>, value: Seq<char>) -> DataView {
    match data {
        DataView::Element { tag, namespace, attrs, widget } => {
            if tag == "input"@ && name == "checked"@ {
                match (parse_bool(value), widget) {
                    (Some(b), WidgetView::Checkbox(_)) => DataView::Element {
                        tag,
                        namespace,
                        attrs,
                        widget: WidgetView::Checkbox(b),
                    },
                    (Some(b), WidgetView::Plain) => DataView::Element {
                        tag,
                        namespace,
                        attrs: with_attr(attrs, name, bool_text(b)),
                        widget,
                    },
                    _ => data,
                }
            } else {
                DataView::Element {
                    tag,
                    namespace,
                    attrs: with_attr(attrs, name, value),
                    widget: if name == "value"@ && widget is TextInput {
                        WidgetView::TextInput(value)
                    } else {
                        widget
                    },
                }
            }
        },
        other => other,
    }
}

/// The data of a node after its attribute `name` has been removed.
///
/// On an `<input>`, `checked` is left alone: the widget state decides. Every
/// other removal deletes the attribute from the list, and that of `value`
/// also empties the text of a text input.
pub open spec fn attribute_removed(data: DataView, name: Seq<char>) -> DataView {
    match data {
        DataView::Element { tag, namespace, attrs, widget } => {
            if tag == "input"@ && name == "checked"@ {
                data
            } else {
                DataView::Element {
                    tag,
                    namespace,
                    attrs: without_attr(attrs, name),
                    widget: if name == "value"@ && widget is TextInput {
                        WidgetView::TextInput(Seq::empty())
                    } else {
                        widget
                    },
                }
            }
        },
        other => other,
    }
}

/// The style signals that a write or removal of the attribute `name` on a
/// node that holds `data` raises: one restyle of the element for `style`.
pub open spec fn attribute_signals(id: NodeId, data: DataView, name: Seq<char>) -> Seq<
    StyleSignal,
> {
    if data is Element && name == "style"@ {
        seq![StyleSignal::Restyle(id)]
    } else {
        Seq::empty()
    }
}

/// The attribute names `checked` and `style` differ.
proof fn lemma_checked_is_not_style()
    ensures
        "checked"@ != "style"@,
{
    reveal_strlit("checked");
    reveal_strlit("style");
    assert("checked"@.len() != "style"@.len());
}

impl Node {
    /// The handle as an index into the arena.
    pub fn node_id(&self) -> (id: NodeId)
        ensures
            id == self.0,
    {
        self.0
    }

    /// The parent of this node, or nothing where the node is not live or has
    /// no parent.
    pub fn parent_node(&self, doc: &Arena) -> (parent: Option<Node>)
        ensures
            parent == (if doc@.contains_key(self.0) && doc@[self.0].parent is Some {
                Some(Node(doc@[self.0].parent->0))
            } else {
                None
            }),
    {
        match doc.parent(self.0) {
            Some(p) => Some(Node(p)),
            None => None,
        }
    }

    /// The first child of this node, or nothing where the node is not live or
    /// has no children.
    pub fn first_child(&self, doc: &Arena) -> (child: Option<Node>)
        ensures
            child == (if doc@.contains_key(self.0) && doc@[self.0].children.len() > 0 {
                Some(Node(doc@[self.0].children[0]))
            } else {
                None
            }),
    {
        match doc.first_child(self.0) {
            Some(c) => Some(Node(c)),
            None => None,
        }
    }

    /// The sibling that follows this node, or nothing where the node is not
    /// live, has no parent, or is the last child.
    pub fn next_sibling(&self, doc: &Arena) -> (sibling: Option<Node>)
        requires
            doc.wf(),
        ensures
            sibling == (match next_sibling_of(doc@, self.0) {
                Some(s) => Some(Node(s)),
                None => None,
            }),
    {
        match doc.next_sibling(self.0) {
            Some(s) => Some(Node(s)),
            None => None,
        }
    }

    /// Puts the detached node `new_node` into the tree: immediately before
    /// `reference_node` in the child list that holds it, or, without a
    /// reference, at the end of the child list of this node.
    pub fn insert_before(&self, doc: &mut Arena, new_node: &Node, reference_node: Option<&Node>)
        requires
            old(doc).wf(),
            match reference_node {
                Some(r) => old(doc)@.contains_key(r.0) && old(doc)@[r.0].parent is Some,
                None => old(doc)@.contains_key(self.0),
            },
            old(doc).adoptable(
                seq![new_node.0],
                insertion_parent(old(doc)@, self.0, opt_id(reference_node)),
            ),
        ensures
            final(doc).adopts(
                old(doc),
                insertion_parent(old(doc)@, self.0, opt_id(reference_node)),
                insertion_index(old(doc)@, self.0, opt_id(reference_node)),
                seq![new_node.0],
            ),
    {
        let nodes = [new_node.0];
        assert(nodes@ =~= seq![new_node.0]);
        let reference = match reference_node {
            Some(r) => Some(r.0),
            None => None,
        };
        doc.insert_before(self.0, &nodes, reference);
    }

    /// Removes the live node `child`, and everything under it, from the tree
    /// and hands it back.
    pub fn remove_child(&self, doc: &mut Arena, child: &Node) -> (removed: Option<Node>)
        requires
            old(doc).wf(),
            old(doc)@.contains_key(child.0),
            child.0 != ROOT,
        ensures
            removed == Some(*child),
            final(doc).drops(old(doc), child.0),
    {
        doc.remove_node(child.0);
        Some(*child)
    }

    /// Sets the content of this node, where it is a text node, to `value`.
    /// Content that is equal to what the node holds is not written again.
    pub fn set_text_content(&self, doc: &mut Arena, value: &str)
        requires
            old(doc).wf(),
            old(doc)@.contains_key(self.0),
        ensures
            final(doc).wf(),
            text_differs(old(doc)@, self.0, value@) ==> final(doc).rewrites(
                old(doc),
                self.0,
                DataView::Text(value@),
                if old(doc)@[self.0].parent matches Some(p) && is_style_element(old(doc)@, p) {
                    seq![StyleSignal::Stylesheet(old(doc)@[self.0].parent->0)]
                } else {
                    Seq::empty()
                },
            ),
            !text_differs(old(doc)@, self.0, value@) ==> *final(doc) == *old(doc),
    {
        doc.set_text(self.0, value);
        proof {
            assert(old(doc).pending() + Seq::<StyleSignal>::empty() =~= old(doc).pending());
            assert(old(doc).pending() + seq![
                StyleSignal::Stylesheet(old(doc)@[self.0].parent->0),
            ] =~= old(doc).pending().push(StyleSignal::Stylesheet(old(doc)@[self.0].parent->0)));
        }
    }
}

impl Element {
    /// The handle as an index into the arena.
    pub fn node_id(&self) -> (id: NodeId)
        ensures
            id == self.0.0,
    {
        self.0.0
    }

    /// Writes the attribute `name` of this element with `value`; see
    /// [`attribute_written`] for what is stored. A write of `style` asks the
    /// style engine for a restyle of the element. On a node that is no
    /// element nothing happens.
    pub fn set_attribute(&self, doc: &mut Arena, name: &str, value: &str)
        requires
            old(doc).wf(),
            old(doc)@.contains_key(self.0.0),
        ensures
            final(doc).rewrites(
                old(doc),
                self.0.0,
                attribute_written(old(doc)@[self.0.0].data, name@, value@),
                attribute_signals(self.0.0, old(doc)@[self.0.0].data, name@),
            ),
    {
        let id = self.0.0;
        let ghost data = doc@[id].data;
        let (is_element, is_input, has_checkbox, has_plain, has_text_input) = match doc.get_node(
            id,
        ) {
            Some(n) => match &n.data {
                NodeData::Element(e) => {
                    let input = str_eq(e.tag.as_str(), "input");
                    match &e.widget {
                        Widget::Checkbox(_) => (true, input, true, false, false),
                        Widget::Plain => (true, input, false, true, false),
                        Widget::TextInput(_) => (true, input, false, false, true),
                    }
                },
                _ => (false, false, false, false, false),
            },
            None => (false, false, false, false, false),
        };
        if !is_element {
            assert(doc@ =~= with_data(doc@, id, data));
            assert(doc.pending() + Seq::<StyleSignal>::empty() =~= doc.pending());
            return ;
        }
        if is_input && str_eq(name, "checked") {
            proof {
                lemma_checked_is_not_style();
            }
            set_input_checked_state(doc, *self, value);
            assert(old(doc).pending() + Seq::<StyleSignal>::empty() =~= old(doc).pending());
            return ;
        }
        if has_text_input && str_eq(name, "value") {
            doc.set_widget(id, Widget::TextInput(String::from_str(value)));
        }
        doc.put_attribute(id, name, value);
        assert(doc@ =~= with_data(old(doc)@, id, attribute_written(data, name@, value@)));
        if str_eq(name, "style") {
            doc.signal(StyleSignal::Restyle(id));
        }
        assert(doc.pending() =~= old(doc).pending() + attribute_signals(id, data, name@));
    }

    /// Removes the attribute `name` of this element; see
    /// [`attribute_removed`] for what is left. A removal of `style` asks the
    /// style engine for a restyle of the element. On a node that is no
    /// element nothing happens.
    pub fn remove_attribute(&self, doc: &mut Arena, attr_name: &str)
        requires
            old(doc).wf(),
            old(doc)@.contains_key(self.0.0),
        ensures
            final(doc).rewrites(
                old(doc),
                self.0.0,
                attribute_removed(old(doc)@[self.0.0].data, attr_name@),
                attribute_signals(self.0.0, old(doc)@[self.0.0].data, attr_name@),
            ),
    {
        let id = self.0.0;
        let ghost data = doc@[id].data;
        let (is_element, is_input, has_text_input) = match doc.get_node(id) {
            Some(n) => match &n.data {
                NodeData::Element(e) => {
                    let input = str_eq(e.tag.as_str(), "input");
                    match &e.widget {
                        Widget::TextInput(_) => (true, input, true),
                        _ => (true, input, false),
                    }
                },
                _ => (false, false, false),
            },
            None => (false, false, false),
        };
        if !is_element || (is_input && str_eq(attr_name, "checked")) {
            proof {
                lemma_checked_is_not_style();
            }
            assert(doc@ =~= with_data(doc@, id, data));
            assert(doc.pending() + Seq::<StyleSignal>::empty() =~= doc.pending());
            return ;
        }
        if has_text_input && str_eq(attr_name, "value") {
            doc.set_widget(id, Widget::TextInput(String::new()));
        }
        doc.delete_attribute(id, attr_name);
        assert(doc@ =~= with_data(old(doc)@, id, attribute_removed(data, attr_name@)));
        if str_eq(attr_name, "style") {
            doc.signal(StyleSignal::Restyle(id));
        }
        assert(doc.pending() =~= old(doc).pending() + attribute_signals(id, data, attr_name@));
    }

    /// Removes this element, and everything under it, from the tree.
    pub fn remove(&self, doc: &mut Arena)
        requires
            old(doc).wf(),
            old(doc)@.contains_key(self.0.0),
            self.0.0 != ROOT,
        ensures
            final(doc).drops(old(doc), self.0.0),
    {
        doc.remove_node(self.0.0);
    }
}

/// Writes `checked` on the `<input>` element `element`: a value that reads as
/// a truth value becomes the state of a checkbox, or an ordinary attribute
/// where the input has no widget state yet. Any other value is dropped.
pub fn set_input_checked_state(doc: &mut Arena, element: Element, value: &str)
    requires
        old(doc).wf(),
        old(doc)@.contains_key(element.0.0),
        old(doc)@[element.0.0].data matches DataView::Element { tag, .. } && tag == "input"@,
    ensures
        final(doc).rewrites(
            old(doc),
            element.0.0,
            attribute_written(old(doc)@[element.0.0].data, "checked"@, value@),
            Seq::empty(),
        ),
{
    let id = element.0.0;
    let ghost data = doc@[id].data;
    let checked = if str_eq(value, "true") {
        Some(true)
    } else if str_eq(value, "false") {
        Some(false)
    } else {
        None
    };
    let (has_checkbox, has_plain) = match doc.get_node(id) {
        Some(n) => match &n.data {
            NodeData::Element(e) => match &e.widget {
                Widget::Checkbox(_) => (true, false),
                Widget::Plain => (false, true),
                Widget::TextInput(_) => (false, false),
            },
            _ => (false, false),
        },
        None => (false, false),
    };
    match checked {
        Some(b) => {
            if has_checkbox {
                doc.set_widget(id, Widget::Checkbox(b));
            } else if has_plain {
                doc.put_attribute(id, "checked", if b {
                    "true"
                } else {
                    "false"
                });
            } else {
                assert(doc@ =~= with_data(doc@, id, data));
            }
        },
        None => {
            assert(doc@ =~= with_data(doc@, id, data));
        },
    }
    assert(doc.pending() + Seq::<StyleSignal>::empty() =~= doc.pending());
}

} // verus!

verus! {

impl Document {
    /// Creates a comment. A comment is an opaque placeholder: it holds no
    /// text, and `_data` is not kept.
    pub fn create_comment(&self, doc: &mut Arena, _data: &str) -> (comment: Comment)
        requires
            old(doc).wf(),
        ensures
            final(doc).creates(old(doc), comment.0.0, DataView::Comment),
    {
        Comment(Node(doc.create_node(NodeData::Comment)))
    }

    /// Creates an element called `qualified_name` in the namespace
    /// `namespace_url`, without attributes and without widget state.
    pub fn create_element_ns(
        &self,
        doc: &mut Arena,
        namespace_url: Option<&str>,
        qualified_name: &str,
    ) -> (element: Element)
        requires
            old(doc).wf(),
        ensures
            final(doc).creates(
                old(doc),
                element.0.0,
                DataView::Element {
                    tag: qualified_name@,
                    namespace: opt_text(namespace_url),
                    attrs: Seq::empty(),
                    widget: WidgetView::Plain,
                },
            ),
    {
        let namespace = match namespace_url {
            Some(url) => Some(String::from_str(url)),
            None => None,
        };
        let data = ElementData {
            tag: String::from_str(qualified_name),
            namespace,
            attrs: Vec::new(),
            widget: Widget::Plain,
        };
        assert(attrs_view(data.attrs@) =~= Seq::empty());
        Element(Node(doc.create_node(NodeData::Element(data))))
    }

    /// Creates a text node that holds `data`.
    pub fn create_text_node(&self, doc: &mut Arena, data: &str) -> (text: Text)
        requires
            old(doc).wf(),
        ensures
            final(doc).creates(old(doc), text.0.0, DataView::Text(data@)),
    {
        Text(Node(doc.create_node(NodeData::Text(String::from_str(data)))))
    }
}

impl Window {
    /// The document that the window shows.
    pub closed spec fn shows(&self) -> Document {
        self.doc
    }

    /// The window on the document `doc`.
    pub fn new(doc: Document) -> (window: Window)
        ensures
            window.shows() == doc,
    {
        Window { doc }
    }

    /// The document that the window shows.
    pub fn document(&self) -> (doc: &Document)
        ensures
            *doc == self.shows(),
    {
        &self.doc
    }
}

impl core::convert::From<NodeId> for Node {
    fn from(value: NodeId) -> (node: Node) {
        Node(value)
    }
}

impl vstd::std_specs::convert::FromSpecImpl<NodeId> for Node {
    open spec fn obeys_from_spec() -> bool {
        true
    }

    open spec fn from_spec(value: NodeId) -> Node {
        Node(value)
    }
}

impl core::convert::From<NodeId> for Element {
    fn from(value: NodeId) -> (element: Element) {
        Element(Node(value))
    }
}

impl vstd::std_specs::convert::FromSpecImpl<NodeId> for Element {
    open spec fn obeys_from_spec() -> bool {
        true
    }

    open spec fn from_spec(value: NodeId) -> Element {
        Element(Node(value))
    }
}

impl core::convert::From<NodeId> for Text {
    fn from(value: NodeId) -> (text: Text) {
        Text(Node(value))
    }
}

impl vstd::std_specs::convert::FromSpecImpl<NodeId> for Text {
    open spec fn obeys_from_spec() -> bool {
        true
    }

    open spec fn from_spec(value: NodeId) -> Text {
        Text(Node(value))
    }
}

impl core::convert::From<NodeId> for Comment {
    fn from(value: NodeId) -> (comment: Comment) {
        Comment(Node(value))
    }
}

impl vstd::std_specs::convert::FromSpecImpl<NodeId> for Comment {
    open spec fn obeys_from_spec() -> bool {
        true
    }

    open spec fn from_spec(value: NodeId) -> Comment {
        Comment(Node(value))
    }
}

impl core::convert::From<NodeId> for Document {
    fn from(value: NodeId) -> (document: Document) {
        Document(Node(value))
    }
}

impl vstd::std_specs::convert::FromSpecImpl<NodeId> for Document {
    open spec fn obeys_from_spec() -> bool {
        true
    }

    open spec fn from_spec(value: NodeId) -> Document {
        Document(Node(value))
    }
}


impl Text {
    /// The handle as an index into the arena.
    pub fn node_id(&self) -> (id: NodeId)
        ensures
            id == self.0.0,
    {
        self.0.0
    }
}

impl Comment {
    /// The handle as an index into the arena.
    pub fn node_id(&self) -> (id: NodeId)
        ensures
            id == self.0.0,
    {
        self.0.0
    }
}

impl core::ops::Deref for Element {
    type Target = Node;

    fn deref(&self) -> (node: &Node)
        ensures
            *node == self.0,
    {
        &self.0
    }
}

impl core::ops::Deref for Text {
    type Target = Node;

    fn deref(&self) -> (node: &Node)
        ensures
            *node == self.0,
    {
        &self.0
    }
}

impl core::ops::Deref for Comment {
    type Target = Node;

    fn deref(&self) -> (node: &Node)
        ensures
            *node == self.0,
    {
        &self.0
    }
}

} // verus!
