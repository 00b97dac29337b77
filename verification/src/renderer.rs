//! The renderer: the document and the handler table that views are built
//! into, and the operations that views use on them.
use crate::arena::{
    insertion_index, insertion_parent, is_style_element, next_sibling_of, text_differs, Arena,
    DataView, NodeId, NodeView, StyleSignal, WidgetView, ROOT,
};
use crate::dom::{
    attribute_removed, attribute_signals, attribute_written, opt_id, opt_text, Comment, Document,
    Element, Node, Text,
};
use crate::registry::{Callback, EventRegistry};
use vstd::prelude::*;

verus! {

/// What a view is rendered into: the document tree and the handler table.
pub struct Dom {
    pub doc: Arena,
    pub events: EventRegistry,
}

/// The node type that marks a position in a child list.
pub type Placeholder = Comment;

/// A conversion of a node handle into a handle of one kind, which succeeds
/// where the node is live and of that kind.
pub trait CastFrom<T>: Sized {
    /// What the conversion of `source` gives in the document `doc`.
    spec fn casts(doc: &Arena, source: T) -> Option<Self>;

    /// Converts `source`.
    fn cast_from(doc: &Arena, source: T) -> (cast: Option<Self>)
        ensures
            cast == Self::casts(doc, source),
    ;
}

impl CastFrom<Node> for Element {
    open spec fn casts(doc: &Arena, source: Node) -> Option<Element> {
        if doc@.contains_key(source.0) && doc@[source.0].data is Element {
            Some(Element(source))
        } else {
            None
        }
    }

    fn cast_from(doc: &Arena, source: Node) -> (cast: Option<Element>) {
        if doc.is_element(source.0) {
            let cast = Some(Element(source));
            assert(doc@.contains_key(source.0) && doc@[source.0].data is Element);
            assert(Self::casts(doc, source) == Some(Element(source)));
            cast
        } else {
            assert(Self::casts(doc, source) is None);
            None
        }
    }
}

impl CastFrom<Node> for Text {
    open spec fn casts(doc: &Arena, source: Node) -> Option<Text> {
        if doc@.contains_key(source.0) && doc@[source.0].data is Text {
            Some(Text(source))
        } else {
            None
        }
    }

    fn cast_from(doc: &Arena, source: Node) -> (cast: Option<Text>) {
        if doc.is_text(source.0) {
            Some(Text(source))
        } else {
            None
        }
    }
}

impl CastFrom<Node> for Comment {
    open spec fn casts(doc: &Arena, source: Node) -> Option<Comment> {
        if doc@.contains_key(source.0) && doc@[source.0].data is Comment {
            Some(Comment(source))
        } else {
            None
        }
    }

    fn cast_from(doc: &Arena, source: Node) -> (cast: Option<Comment>) {
        if doc.is_comment(source.0) {
            Some(Comment(source))
        } else {
            None
        }
    }
}

impl Dom {
    /// Document and handler table are well formed.
    pub open spec fn wf(&self) -> bool {
        self.doc.wf() && self.events.wf()
    }

    /// `self` is `before` and more: the document extends that of `before`,
    /// and every handler of `before` is still registered.
    pub open spec fn extends(&self, before: &Dom) -> bool {
        &&& self.doc.extends(&before.doc)
        &&& before.events@.submap_of(self.events@)
    }

    /// Extending is transitive.
    pub proof fn lemma_extends_trans(&self, middle: &Dom, before: &Dom)
        requires
            middle.extends(before),
            self.extends(middle),
        ensures
            self.extends(before),
    {
        self.doc.lemma_extends_trans(&middle.doc, &before.doc);
        vstd::map_lib::lemma_submap_of_trans(before.events@, middle.events@, self.events@);
    }

    /// A renderer on an empty document, without handlers.
    pub fn new() -> (dom: Dom)
        ensures
            dom.wf(),
            dom.doc@ =~= map![ROOT => NodeView {
                parent: None,
                children: Seq::empty(),
                data: DataView::Document,
            }],
            dom.events@ == Map::<u64, Callback>::empty(),
    {
        Dom { doc: Arena::new(), events: EventRegistry::new() }
    }

    /// The text itself: this renderer keeps no table of interned strings.
    pub fn intern(text: &str) -> (same: &str)
        ensures
            same@ == text@,
    {
        text
    }

    /// Creates a detached element called `tag` in `namespace`.
    pub fn create_element(&mut self, tag: &str, namespace: Option<&str>) -> (element: Element)
        requires
            old(self).wf(),
        ensures
            final(self).events == old(self).events,
            final(self).doc.creates(
                &old(self).doc,
                element.0.0,
                DataView::Element {
                    tag: tag@,
                    namespace: opt_text(namespace),
                    attrs: Seq::empty(),
                    widget: WidgetView::Plain,
                },
            ),
    {
        Document(Node(ROOT)).create_element_ns(&mut self.doc, namespace, tag)
    }

    /// Creates a detached text node that holds `text`.
    pub fn create_text_node(&mut self, text: &str) -> (node: Text)
        requires
            old(self).wf(),
        ensures
            final(self).events == old(self).events,
            final(self).doc.creates(&old(self).doc, node.0.0, DataView::Text(text@)),
    {
        Document(Node(ROOT)).create_text_node(&mut self.doc, text)
    }

    /// Creates a detached placeholder.
    pub fn create_placeholder(&mut self) -> (node: Placeholder)
        requires
            old(self).wf(),
        ensures
            final(self).events == old(self).events,
            final(self).doc.creates(&old(self).doc, node.0.0, DataView::Comment),
    {
        Document(Node(ROOT)).create_comment(&mut self.doc, "")
    }

    /// Sets the content of the text node `node` to `text`, unless it holds
    /// that already.
    pub fn set_text(&mut self, node: &Text, text: &str)
        requires
            old(self).wf(),
            old(self).doc@.contains_key(node.0.0),
        ensures
            final(self).wf(),
            final(self).events == old(self).events,
            text_differs(old(self).doc@, node.0.0, text@) ==> final(self).doc.rewrites(
                &old(self).doc,
                node.0.0,
                DataView::Text(text@),
                if old(self).doc@[node.0.0].parent matches Some(p) && is_style_element(
                    old(self).doc@,
                    p,
                ) {
                    seq![StyleSignal::Stylesheet(old(self).doc@[node.0.0].parent->0)]
                } else {
                    Seq::empty()
                },
            ),
            !text_differs(old(self).doc@, node.0.0, text@) ==> *final(self) == *old(self),
    {
        node.0.set_text_content(&mut self.doc, text);
    }

    /// Writes the attribute `name` of `node` with `value`.
    pub fn set_attribute(&mut self, node: &Element, name: &str, value: &str)
        requires
            old(self).wf(),
            old(self).doc@.contains_key(node.0.0),
        ensures
            final(self).events == old(self).events,
            final(self).doc.rewrites(
                &old(self).doc,
                node.0.0,
                attribute_written(old(self).doc@[node.0.0].data, name@, value@),
                attribute_signals(node.0.0, old(self).doc@[node.0.0].data, name@),
            ),
    {
        node.set_attribute(&mut self.doc, name, value);
    }

    /// Removes the attribute `name` of `node`.
    pub fn remove_attribute(&mut self, node: &Element, name: &str)
        requires
            old(self).wf(),
            old(self).doc@.contains_key(node.0.0),
        ensures
            final(self).events == old(self).events,
            final(self).doc.rewrites(
                &old(self).doc,
                node.0.0,
                attribute_removed(old(self).doc@[node.0.0].data, name@),
                attribute_signals(node.0.0, old(self).doc@[node.0.0].data, name@),
            ),
    {
        node.remove_attribute(&mut self.doc, name);
    }

    /// Puts the detached node `new_child` into the tree: immediately before
    /// `anchor` in the child list that holds it, or, without an anchor, at
    /// the end of the child list of `parent`.
    pub fn insert_node(&mut self, parent: &Element, new_child: &Node, anchor: Option<&Node>)
        requires
            old(self).wf(),
            match anchor {
                Some(r) => old(self).doc@.contains_key(r.0) && old(self).doc@[r.0].parent is Some,
                None => old(self).doc@.contains_key(parent.0.0),
            },
            old(self).doc.adoptable(
                seq![new_child.0],
                insertion_parent(old(self).doc@, parent.0.0, opt_id(anchor)),
            ),
        ensures
            final(self).events == old(self).events,
            final(self).doc.adopts(
                &old(self).doc,
                insertion_parent(old(self).doc@, parent.0.0, opt_id(anchor)),
                insertion_index(old(self).doc@, parent.0.0, opt_id(anchor)),
                seq![new_child.0],
            ),
    {
        parent.0.insert_before(&mut self.doc, new_child, anchor);
    }

    /// Removes the live node `child`, and everything under it, from the tree
    /// and hands it back.
    pub fn remove_node(&mut self, parent: &Element, child: &Node) -> (removed: Option<Node>)
        requires
            old(self).wf(),
            old(self).doc@.contains_key(child.0),
            child.0 != ROOT,
        ensures
            removed == Some(*child),
            final(self).events == old(self).events,
            final(self).doc.drops(&old(self).doc, child.0),
    {
        parent.0.remove_child(&mut self.doc, child)
    }

    /// Removes the element `node`, and everything under it, from the tree.
    pub fn remove(&mut self, node: &Element)
        requires
            old(self).wf(),
            old(self).doc@.contains_key(node.0.0),
            node.0.0 != ROOT,
        ensures
            final(self).events == old(self).events,
            final(self).doc.drops(&old(self).doc, node.0.0),
    {
        node.remove(&mut self.doc);
    }

    /// Removes `node`, and everything under it, from the tree.
    pub fn remove_self(&mut self, node: &Node)
        requires
            old(self).wf(),
            old(self).doc@.contains_key(node.0),
            node.0 != ROOT,
        ensures
            final(self).events == old(self).events,
            final(self).doc.drops(&old(self).doc, node.0),
    {
        self.doc.remove_node(node.0);
    }

    /// The parent of `node`, if it has one.
    pub fn get_parent(&self, node: &Node) -> (parent: Option<Node>)
        ensures
            parent == (if self.doc@.contains_key(node.0) && self.doc@[node.0].parent is Some {
                Some(Node(self.doc@[node.0].parent->0))
            } else {
                None
            }),
    {
        node.parent_node(&self.doc)
    }

    /// The first child of `node`, if it has one.
    pub fn first_child(&self, node: &Node) -> (child: Option<Node>)
        ensures
            child == (if self.doc@.contains_key(node.0) && self.doc@[node.0].children.len() > 0 {
                Some(Node(self.doc@[node.0].children[0]))
            } else {
                None
            }),
    {
        node.first_child(&self.doc)
    }

    /// The sibling that follows `node`, if there is one.
    pub fn next_sibling(&self, node: &Node) -> (sibling: Option<Node>)
        requires
            self.wf(),
        ensures
            sibling == (match next_sibling_of(self.doc@, node.0) {
                Some(s) => Some(Node(s)),
                None => None,
            }),
    {
        node.next_sibling(&self.doc)
    }
}

} // verus!
