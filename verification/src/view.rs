//! The view protocol: how a described view becomes nodes of the document, and
//! how a later value of the same view is brought into the nodes that the
//! first one made.
//!
//! A view is built once, which creates its nodes and returns the retained
//! state. The state remembers the nodes and the values last shown. Rebuilding
//! compares the new values with the remembered ones and writes only where
//! they differ. The shape of a view never changes between its build and its
//! rebuilds: only values do.
use crate::arena::{insertion_index, insertion_parent, Arena, NodeId, ROOT};
use crate::dom::{opt_id, Comment, Element, Node, Text};
use crate::renderer::Dom;
use crate::text::string_with_capacity;
use vstd::prelude::*;

verus! {

/// The place that `marker` and `parent` name for a mount is usable: the
/// marker, where one is given, is a live node with a parent, and else the
/// parent is live.
pub open spec fn mount_point(doc: &Arena, parent: NodeId, marker: Option<NodeId>) -> bool {
    match marker {
        Some(m) => doc@.contains_key(m) && doc@[m].parent is Some,
        None => doc@.contains_key(parent),
    }
}

/// The node before which a sibling of the single node `id` is put: `id`
/// itself, where it is live and the child of an element.
pub open spec fn node_anchor(doc: &Arena, id: NodeId) -> Option<NodeId> {
    if doc@.contains_key(id) && (doc@[id].parent matches Some(p) && doc@.contains_key(p)
        && doc@[p].data is Element) {
        Some(id)
    } else {
        None
    }
}

/// Retained state that can be put into the document and taken out of it.
pub trait Mountable: Sized {
    /// The nodes at the top of what this state holds in the document, in
    /// document order. A state that holds none contributes nothing.
    spec fn roots(&self) -> Seq<NodeId>;

    /// The node of this state before which [`Anchor::insert_before_this`]
    /// puts a sibling in `doc`, if there is one.
    spec fn anchor(&self, doc: &Arena) -> Option<NodeId>;

    /// A state without nodes has no anchor, and an anchor is a live child of
    /// a live element.
    proof fn lemma_anchor(&self, doc: &Arena)
        ensures
            self.roots().len() == 0 ==> self.anchor(doc) is None,
            self.anchor(doc) matches Some(r) ==> node_anchor(doc, r) == Some(r),
    ;

    /// What releasing this state does: how the renderer `after` and the
    /// state `state` come from the renderer `before` and from this state.
    spec fn released(&self, before: &Dom, after: &Dom, state: &Self) -> bool;

    /// What unmounting this state does: how the renderer `after` and the
    /// state `state` come from the renderer `before` and from this state.
    spec fn unmounted(&self, before: &Dom, after: &Dom, state: &Self) -> bool;

    /// Gives up what this state holds outside the document: the handlers of
    /// its elements leave the table. The document is not touched.
    fn release(&mut self, dom: &mut Dom)
        requires
            old(dom).wf(),
        ensures
            final(dom).events.wf(),
            final(dom).events@.submap_of(old(dom).events@),
            final(dom).doc == old(dom).doc,
            final(self).roots() == old(self).roots(),
            old(self).released(old(dom), final(dom), final(self)),
    ;

    /// Detaches the nodes of this state from the document and removes them
    /// with everything under them, and gives up its handlers. Nodes that
    /// are gone already are passed over.
    fn unmount(&mut self, dom: &mut Dom)
        requires
            old(dom).wf(),
            !old(self).roots().contains(ROOT),
        ensures
            final(dom).events.wf(),
            final(dom).events@.submap_of(old(dom).events@),
            final(dom).doc.without(&old(dom).doc, old(self).roots()),
            final(self).roots() == old(self).roots(),
            old(self).unmounted(old(dom), final(dom), final(self)),
    ;

    /// Puts the nodes of this state into the document, in order: immediately
    /// before `marker` in the child list that holds it, or, without a
    /// marker, at the end of the child list of `parent`.
    fn mount(&mut self, dom: &mut Dom, parent: &Element, marker: Option<&Node>)
        requires
            old(dom).wf(),
            mount_point(&old(dom).doc, parent.0.0, opt_id(marker)),
            old(dom).doc.adoptable(
                old(self).roots(),
                insertion_parent(old(dom).doc@, parent.0.0, opt_id(marker)),
            ),
        ensures
            final(dom).events == old(dom).events,
            final(dom).doc.adopts(
                &old(dom).doc,
                insertion_parent(old(dom).doc@, parent.0.0, opt_id(marker)),
                insertion_index(old(dom).doc@, parent.0.0, opt_id(marker)),
                old(self).roots(),
            ),
            *final(self) == *old(self),
    ;
}

/// Retained state before which the nodes of another state can be put.
pub trait Anchor: Mountable {
    /// Puts the nodes of `child` immediately before the first node of this
    /// state that stands in the document as the child of an element.
    /// Returns `false`, and changes nothing, where this state has no such
    /// node: always so where it holds no nodes at all.
    fn insert_before_this<M: Mountable>(&self, dom: &mut Dom, child: &mut M) -> (inserted: bool)
        requires
            old(dom).wf(),
            self.anchor(&old(dom).doc) matches Some(r) ==> old(dom).doc.adoptable(
                old(child).roots(),
                old(dom).doc@[r].parent->0,
            ),
        ensures
            inserted == self.anchor(&old(dom).doc) is Some,
            self.roots().len() == 0 ==> !inserted,
            *final(child) == *old(child),
            !inserted ==> *final(dom) == *old(dom),
            inserted ==> final(dom).events == old(dom).events && final(dom).doc.adopts(
                &old(dom).doc,
                old(dom).doc@[self.anchor(&old(dom).doc)->0].parent->0,
                insertion_index(old(dom).doc@, ROOT, self.anchor(&old(dom).doc)),
                old(child).roots(),
            ),
    ;

    /// Puts the nodes of `child` before this state, or, where this state has
    /// no node to put them before, at the place that `parent` and `marker`
    /// name.
    fn insert_before_this_or_marker<M: Mountable>(
        &self,
        dom: &mut Dom,
        parent: &Element,
        child: &mut M,
        marker: Option<&Node>,
    )
        requires
            old(dom).wf(),
            match self.anchor(&old(dom).doc) {
                Some(r) => old(dom).doc.adoptable(old(child).roots(), old(dom).doc@[r].parent->0),
                None => mount_point(&old(dom).doc, parent.0.0, opt_id(marker)) && old(
                    dom,
                ).doc.adoptable(
                    old(child).roots(),
                    insertion_parent(old(dom).doc@, parent.0.0, opt_id(marker)),
                ),
            },
        ensures
            final(dom).events == old(dom).events,
            *final(child) == *old(child),
            match self.anchor(&old(dom).doc) {
                Some(r) => final(dom).doc.adopts(
                    &old(dom).doc,
                    old(dom).doc@[r].parent->0,
                    insertion_index(old(dom).doc@, ROOT, Some(r)),
                    old(child).roots(),
                ),
                None => final(dom).doc.adopts(
                    &old(dom).doc,
                    insertion_parent(old(dom).doc@, parent.0.0, opt_id(marker)),
                    insertion_index(old(dom).doc@, parent.0.0, opt_id(marker)),
                    old(child).roots(),
                ),
            },
    {
        if !self.insert_before_this(dom, child) {
            child.mount(dom, parent, marker);
        }
    }
}

/// Something that can be rendered as part of the user interface.
pub trait Render: Sized {
    /// The state that is retained between updates: the nodes of the view and
    /// the values that they show.
    type State: Anchor;

    /// Whether `state` shows this value already, so that rebuilding `state`
    /// with it has nothing to write.
    spec fn shown_by(&self, state: &Self::State) -> bool;

    /// What building this view does: how the renderer `after` and the
    /// retained state `state` come from the renderer `before`.
    spec fn built(&self, before: &Dom, after: &Dom, state: &Self::State) -> bool;

    /// What rebuilding the retained state `was` with this view does: how
    /// the renderer `after` and the state `state` come from the renderer
    /// `before` and from `was`.
    spec fn rebuilt(
        &self,
        before: &Dom,
        after: &Dom,
        was: &Self::State,
        state: &Self::State,
    ) -> bool;

    /// Creates the nodes of the view. The nodes are new and detached: the
    /// document is the old one, with the nodes of the view added.
    fn build(self, dom: &mut Dom) -> (state: Self::State)
        requires
            old(dom).wf(),
        ensures
            final(dom).wf(),
            final(dom).extends(old(dom)),
            final(dom).doc.detached(state.roots()),
            forall|k: int|
                0 <= k < state.roots().len() ==> !old(dom).doc@.contains_key(
                    #[trigger] state.roots()[k],
                ),
            self.shown_by(&state),
            self.built(old(dom), final(dom), &state),
    ;

    /// Brings a new value of the view into the nodes of `state`. A value
    /// that `state` shows already is not written again: document, handler
    /// table and state stay as they are.
    fn rebuild(self, dom: &mut Dom, state: &mut Self::State)
        requires
            old(dom).wf(),
        ensures
            final(dom).wf(),
            self.shown_by(final(state)),
            self.shown_by(old(state)) ==> *final(dom) == *old(dom) && *final(state) == *old(state),
            self.rebuilt(old(dom), final(dom), old(state), final(state)),
    ;
}

/// Where the item that is being serialized stands among its siblings.
#[derive(Debug, Copy, Clone, PartialEq, Eq, Structural)]
pub enum Position {
    /// The current node.
    Current,
    /// The first child of its parent.
    FirstChild,
    /// The next child after another child.
    NextChild,
    /// The next child after a text node.
    NextChildAfterText,
    /// The only child of its parent.
    OnlyChild,
    /// The last child of its parent.
    LastChild,
}

impl Default for Position {
    fn default() -> (position: Position)
        ensures
            position == Position::FirstChild,
    {
        Position::FirstChild
    }
}

/// The sum of two estimates, or the largest number where the sum is larger.
pub open spec fn saturated(x: usize, y: usize) -> usize {
    if x + y > usize::MAX {
        usize::MAX
    } else {
        (x + y) as usize
    }
}

/// The most room that a buffer is made with before anything is written.
pub const MAX_PREALLOCATION: usize = 0x7fff_ffff;

/// An empty buffer with room for `estimate` bytes, within reason.
pub fn buffer_for(estimate: usize) -> (buf: String)
    ensures
        buf@ == Seq::<char>::empty(),
{
    let capacity = if estimate > MAX_PREALLOCATION {
        MAX_PREALLOCATION
    } else {
        estimate
    };
    string_with_capacity(capacity)
}

/// Something that can be written as markup text, without a document.
pub trait RenderHtml: Render {
    /// Whether the view stands for something in the document when it is the
    /// child of an element. The empty view does not.
    const EXISTS: bool;

    /// The markup of this view, written at `position`.
    spec fn html(&self, position: Position, escape: bool, mark_branches: bool) -> Seq<char>;

    /// Where the next sibling stands once this view has been written at
    /// `position`.
    spec fn position_after(&self, position: Position) -> Position;

    /// Runs the view without other effects. Nothing here waits for data, so
    /// nothing changes.
    fn dry_resolve(&mut self)
        ensures
            *final(self) == *old(self),
    ;

    /// The estimate that the view gives of the length of its markup.
    spec fn estimate(&self) -> usize;

    /// An estimate of the length of the markup, in bytes, for sizing a
    /// buffer.
    fn html_len(&self) -> (len: usize)
        ensures
            len == self.estimate(),
    ;

    /// The markup of the view, with its text escaped.
    fn to_html(self) -> (markup: String)
        ensures
            markup@ == self.html(Position::FirstChild, true, false),
    {
        let mut buf = buffer_for(self.html_len());
        let mut position = Position::FirstChild;
        self.to_html_with_buf(&mut buf, &mut position, true, false);
        assert(Seq::<char>::empty() + self.html(Position::FirstChild, true, false) =~= self.html(
            Position::FirstChild,
            true,
            false,
        ));
        buf
    }

    /// The markup of the view, with its text escaped and with its branches
    /// marked.
    fn to_html_branching(self) -> (markup: String)
        ensures
            markup@ == self.html(Position::FirstChild, true, true),
    {
        let mut buf = buffer_for(self.html_len());
        let mut position = Position::FirstChild;
        self.to_html_with_buf(&mut buf, &mut position, true, true);
        assert(Seq::<char>::empty() + self.html(Position::FirstChild, true, true) =~= self.html(
            Position::FirstChild,
            true,
            true,
        ));
        buf
    }

    /// Writes the markup of the view to the end of `buf`.
    fn to_html_with_buf(
        self,
        buf: &mut String,
        position: &mut Position,
        escape: bool,
        mark_branches: bool,
    )
        ensures
            final(buf)@ == old(buf)@ + self.html(*old(position), escape, mark_branches),
            *final(position) == self.position_after(*old(position)),
    ;
}

/// A type that turns into something that can be rendered.
pub trait IntoRender {
    /// What this type turns into.
    type Output;

    /// What `self` turns into.
    spec fn rendered(self) -> Self::Output;

    /// Turns `self` into what can be rendered.
    fn into_render(self) -> (output: Self::Output)
        ensures
            output == self.rendered(),
    ;
}

/// What taking the node `id` out of the document does: a live node leaves
/// with everything under it, and nothing changes where the node is gone
/// already.
pub open spec fn node_unmounted(before: &Dom, after: &Dom, id: NodeId) -> bool {
    if before.doc@.contains_key(id) {
        after.events == before.events && after.doc.drops(&before.doc, id)
    } else {
        *after == *before
    }
}

/// Takes the live node `id`, and everything under it, out of the document;
/// a node that is gone already is passed over.
pub fn unmount_node(dom: &mut Dom, id: NodeId)
    requires
        old(dom).wf(),
        id != ROOT,
    ensures
        final(dom).events == old(dom).events,
        final(dom).doc.without(&old(dom).doc, seq![id]),
        node_unmounted(old(dom), final(dom), id),
{
    if dom.doc.contains(id) {
        dom.doc.remove_node(id);
        proof {
            dom.doc.lemma_drops_without(&old(dom).doc, id);
        }
    } else {
        proof {
            dom.doc.lemma_without_nothing(seq![id]);
        }
    }
}

/// Puts the nodes of `child` immediately before the node `id`, where `id` is
/// a live child of an element; else changes nothing and returns `false`.
pub fn insert_before_node<M: Mountable>(dom: &mut Dom, id: NodeId, child: &mut M) -> (inserted:
    bool)
    requires
        old(dom).wf(),
        node_anchor(&old(dom).doc, id) is Some ==> old(dom).doc.adoptable(
            old(child).roots(),
            old(dom).doc@[id].parent->0,
        ),
    ensures
        inserted == node_anchor(&old(dom).doc, id) is Some,
        *final(child) == *old(child),
        !inserted ==> *final(dom) == *old(dom),
        inserted ==> final(dom).events == old(dom).events && final(dom).doc.adopts(
            &old(dom).doc,
            old(dom).doc@[id].parent->0,
            insertion_index(old(dom).doc@, ROOT, Some(id)),
            old(child).roots(),
        ),
{
    let node = Node(id);
    match dom.get_parent(&node) {
        Some(parent) => match <Element as crate::renderer::CastFrom<Node>>::cast_from(
            &dom.doc,
            parent,
        ) {
            Some(element) => {
                child.mount(dom, &element, Some(&node));
                true
            },
            None => false,
        },
        None => false,
    }
}

} // verus!

verus! {

/// What showing `text` in the node `id` does to the renderer: where `id` is
/// a live text node with other content, the content is replaced, and a
/// `<style>` parent is signalled as stale. Anything else is left as it is.
pub open spec fn text_shown(before: &Dom, after: &Dom, id: NodeId, text: Seq<char>) -> bool {
    if crate::arena::text_differs(before.doc@, id, text) {
        &&& after.events == before.events
        &&& after.doc.rewrites(
            &before.doc,
            id,
            crate::arena::DataView::Text(text),
            if before.doc@[id].parent matches Some(p) && crate::arena::is_style_element(
                before.doc@,
                p,
            ) {
                seq![crate::arena::StyleSignal::Stylesheet(before.doc@[id].parent->0)]
            } else {
                Seq::empty()
            },
        )
    } else {
        *after == *before
    }
}

/// What building a text leaf does: a detached text node that holds `text`
/// is made, and nothing else changes.
pub open spec fn leaf_built(before: &Dom, after: &Dom, node: NodeId, text: Seq<char>) -> bool {
    &&& after.events == before.events
    &&& after.doc.creates(&before.doc, node, crate::arena::DataView::Text(text))
}

/// What rebuilding a text leaf does: where the value differs from the one
/// last shown, `text` is shown in the node `node`; else nothing changes.
pub open spec fn leaf_rebuilt(
    before: &Dom,
    after: &Dom,
    node: NodeId,
    differs: bool,
    text: Seq<char>,
) -> bool {
    if differs {
        text_shown(before, after, node, text)
    } else {
        *after == *before
    }
}

/// Shows `text` in the text node `node`. A node that is gone, or that is no
/// text node, is passed over, and equal content is not written again.
pub fn show_text(dom: &mut Dom, node: &Text, text: &str)
    requires
        old(dom).wf(),
    ensures
        final(dom).wf(),
        text_shown(old(dom), final(dom), node.0.0, text@),
{
    if dom.doc.contains(node.0.0) {
        dom.set_text(node, text);
    }
}

impl Mountable for Node {
    open spec fn roots(&self) -> Seq<NodeId> {
        seq![self.0]
    }

    open spec fn anchor(&self, doc: &Arena) -> Option<NodeId> {
        node_anchor(doc, self.0)
    }

    proof fn lemma_anchor(&self, doc: &Arena) {
    }

    open spec fn released(&self, before: &Dom, after: &Dom, state: &Self) -> bool {
        *after == *before && *state == *self
    }

    open spec fn unmounted(&self, before: &Dom, after: &Dom, state: &Self) -> bool {
        *state == *self && node_unmounted(before, after, self.0)
    }

    fn release(&mut self, dom: &mut Dom) {
    }

    fn unmount(&mut self, dom: &mut Dom) {
        assert(self.roots()[0] == self.0);
        unmount_node(dom, self.0);
    }

    fn mount(&mut self, dom: &mut Dom, parent: &Element, marker: Option<&Node>) {
        let node = Node(self.0);
        dom.insert_node(parent, &node, marker);
    }
}

impl Anchor for Node {
    fn insert_before_this<M: Mountable>(&self, dom: &mut Dom, child: &mut M) -> (inserted: bool) {
        insert_before_node(dom, self.0, child)
    }
}

impl Mountable for Text {
    open spec fn roots(&self) -> Seq<NodeId> {
        seq![self.0.0]
    }

    open spec fn anchor(&self, doc: &Arena) -> Option<NodeId> {
        node_anchor(doc, self.0.0)
    }

    proof fn lemma_anchor(&self, doc: &Arena) {
    }

    open spec fn released(&self, before: &Dom, after: &Dom, state: &Self) -> bool {
        *after == *before && *state == *self
    }

    open spec fn unmounted(&self, before: &Dom, after: &Dom, state: &Self) -> bool {
        *state == *self && node_unmounted(before, after, self.0.0)
    }

    fn release(&mut self, dom: &mut Dom) {
    }

    fn unmount(&mut self, dom: &mut Dom) {
        assert(self.roots()[0] == self.0.0);
        unmount_node(dom, self.0.0);
    }

    fn mount(&mut self, dom: &mut Dom, parent: &Element, marker: Option<&Node>) {
        let node = self.0;
        dom.insert_node(parent, &node, marker);
    }
}

impl Anchor for Text {
    fn insert_before_this<M: Mountable>(&self, dom: &mut Dom, child: &mut M) -> (inserted: bool) {
        insert_before_node(dom, self.0.0, child)
    }
}

impl Mountable for Comment {
    open spec fn roots(&self) -> Seq<NodeId> {
        seq![self.0.0]
    }

    open spec fn anchor(&self, doc: &Arena) -> Option<NodeId> {
        node_anchor(doc, self.0.0)
    }

    proof fn lemma_anchor(&self, doc: &Arena) {
    }

    open spec fn released(&self, before: &Dom, after: &Dom, state: &Self) -> bool {
        *after == *before && *state == *self
    }

    open spec fn unmounted(&self, before: &Dom, after: &Dom, state: &Self) -> bool {
        *state == *self && node_unmounted(before, after, self.0.0)
    }

    fn release(&mut self, dom: &mut Dom) {
    }

    fn unmount(&mut self, dom: &mut Dom) {
        assert(self.roots()[0] == self.0.0);
        unmount_node(dom, self.0.0);
    }

    fn mount(&mut self, dom: &mut Dom, parent: &Element, marker: Option<&Node>) {
        let node = self.0;
        dom.insert_node(parent, &node, marker);
    }
}

impl Anchor for Comment {
    fn insert_before_this<M: Mountable>(&self, dom: &mut Dom, child: &mut M) -> (inserted: bool) {
        insert_before_node(dom, self.0.0, child)
    }
}

impl Mountable for Element {
    open spec fn roots(&self) -> Seq<NodeId> {
        seq![self.0.0]
    }

    open spec fn anchor(&self, doc: &Arena) -> Option<NodeId> {
        node_anchor(doc, self.0.0)
    }

    proof fn lemma_anchor(&self, doc: &Arena) {
    }

    open spec fn released(&self, before: &Dom, after: &Dom, state: &Self) -> bool {
        *after == *before && *state == *self
    }

    open spec fn unmounted(&self, before: &Dom, after: &Dom, state: &Self) -> bool {
        *state == *self && node_unmounted(before, after, self.0.0)
    }

    fn release(&mut self, dom: &mut Dom) {
    }

    fn unmount(&mut self, dom: &mut Dom) {
        assert(self.roots()[0] == self.0.0);
        unmount_node(dom, self.0.0);
    }

    fn mount(&mut self, dom: &mut Dom, parent: &Element, marker: Option<&Node>) {
        let node = self.0;
        dom.insert_node(parent, &node, marker);
    }
}

impl Anchor for Element {
    fn insert_before_this<M: Mountable>(&self, dom: &mut Dom, child: &mut M) -> (inserted: bool) {
        insert_before_node(dom, self.0.0, child)
    }
}


impl<T: Render> IntoRender for T {
    type Output = T;

    open spec fn rendered(self) -> T {
        self
    }

    fn into_render(self) -> (output: T) {
        self
    }
}

} // verus!
