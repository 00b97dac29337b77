//! Inert markup: an element whose content is known as markup text and holds
//! nothing that reacts.
//!
//! The markup is parsed once, by the HTML parser, and its nodes are made in
//! the document under a wrapper element. A rebuild with other markup makes a
//! new wrapper, puts it where the old one stands, and removes the old one.
use crate::arena::{Arena, DataView, NodeId, NodeView, WidgetView, ROOT};
use crate::dom::{Element, Node};
use crate::renderer::Dom;
use crate::strings::text_len;
use crate::text::str_eq;
use crate::view::{
    insert_before_node, node_anchor, node_unmounted, unmount_node, Anchor, Mountable, Position,
    Render, RenderHtml,
};
use html5ever::parse_document;
use markup5ever::tendril::TendrilSink;
use markup5ever_rcdom::Node as ParsedNode;
use markup5ever_rcdom::{Handle, NodeData, RcDom};
use std::borrow::Cow;
use vstd::prelude::*;
use vstd::string::*;

verus! {

/// A node of parsed markup.
pub enum Markup {
    /// A text and its content.
    Text(String),
    /// A comment.
    Comment,
    /// An element with its tag, its attributes as pairs of name and value,
    /// and its children.
    Element { tag: String, attrs: Vec<(String, String)>, children: Vec<Markup> },
    /// Anything else that a parser finds: a document type, a processing
    /// instruction.
    Other,
}

/// A node of the tree that the HTML parser builds.
#[verifier::external_type_specification]
#[verifier::external_body]
pub struct ExParsedNode(ParsedNode);

/// What the HTML parser makes of a text: the nodes at the top of the
/// document that it builds.
pub uninterp spec fn parsed_markup(html: Seq<char>) -> Seq<Markup>;

/// `html5ever::parse_document` into a `markup5ever_rcdom::RcDom`, fed with
/// the whole text at once: the nodes at the top of the parsed document.
#[verifier::external_body]
fn parse_markup(html: &str) -> (nodes: Vec<Markup>)
    ensures
        nodes@ == parsed_markup(html@),
{
    let dom = parse_document(RcDom::default(), Default::default()).from_utf8().read_from(
        &mut html.as_bytes(),
    ).unwrap();
    converted(&dom.document)
}

/// The children of a node of a `markup5ever_rcdom` tree, in order, as values
/// of this crate: a text with its content; a comment; an element with the
/// local part of its name, with its attributes as pairs of the local part of
/// the name and the value, and with its children; anything else as `Other`.
/// No contract says what comes out.
#[verifier::external_body]
fn converted(node: &Handle) -> Vec<Markup> {
    node.children.borrow().iter().map(|child| match &child.data {
        NodeData::Text { contents } => Markup::Text(contents.borrow().to_string()),
        NodeData::Comment { .. } => Markup::Comment,
        NodeData::Element { name, attrs, .. } => Markup::Element {
            tag: name.local.to_string(),
            attrs: attrs.borrow().iter().map(
                |a| (a.name.local.to_string(), a.value.to_string())
            ).collect(),
            children: converted(child),
        },
        NodeData::Document => Markup::Other,
        NodeData::Doctype { .. } => Markup::Other,
        NodeData::ProcessingInstruction { .. } => Markup::Other,
    }).collect()
}

/// Whether `tag` is one of the elements that frame a document and are not
/// made as nodes: their children take their place.
pub open spec fn is_frame_tag(tag: Seq<char>) -> bool {
    tag == "html"@ || tag == "head"@ || tag == "body"@
}

/// The number of nodes that the parsed markup `nodes` makes directly under
/// its parent: one for each text, comment and element, but for a frame
/// element as many as its children make in its place.
pub open spec fn made_count(nodes: Seq<Markup>) -> nat
    decreases nodes,
{
    if nodes.len() == 0 {
        0
    } else {
        made_count(nodes.drop_last()) + (match nodes.last() {
            Markup::Element { tag, attrs, children } => if is_frame_tag(tag@) {
                made_count(children@)
            } else {
                1
            },
            Markup::Other => 0,
            _ => 1,
        })
    }
}

/// The data of an element called `tag` once the attributes `attrs` have
/// been written onto it, one after the other.
pub open spec fn element_data(tag: Seq<char>, attrs: Seq<(String, String)>) -> DataView
    decreases attrs.len(),
{
    if attrs.len() == 0 {
        DataView::Element {
            tag,
            namespace: None,
            attrs: Seq::empty(),
            widget: WidgetView::Plain,
        }
    } else {
        crate::dom::attribute_written(
            element_data(tag, attrs.drop_last()),
            attrs.last().0@,
            attrs.last().1@,
        )
    }
}

/// Whether `id` is a node made since `olds` was all that lived, with the
/// parent `parent` and the data `data`.
pub open spec fn made_node(
    m: Map<NodeId, NodeView>,
    olds: Set<NodeId>,
    parent: NodeId,
    id: NodeId,
    data: DataView,
) -> bool {
    m.contains_key(id) && !olds.contains(id) && m[id].parent == Some(parent) && m[id].data == data
}

/// Whether the nodes `ids`, children of `parent` in this order, are what
/// the parsed markup `nodes` makes under one parent: a text node for each
/// text, a comment for each comment, an element for each element, with its
/// attributes written and with what its own children make under it; but for
/// a frame element what its children make, in its place; and nothing for
/// anything else. All of these are nodes made since `olds` was all that
/// lived.
pub open spec fn shows_list(
    m: Map<NodeId, NodeView>,
    olds: Set<NodeId>,
    parent: NodeId,
    ids: Seq<NodeId>,
    nodes: Seq<Markup>,
) -> bool
    decreases nodes,
{
    if nodes.len() == 0 {
        ids.len() == 0
    } else {
        let k = made_count(nodes.drop_last()) as int;
        &&& k <= ids.len()
        &&& shows_list(m, olds, parent, ids.take(k), nodes.drop_last())
        &&& match nodes.last() {
            Markup::Text(text) => ids.len() == k + 1 && made_node(
                m,
                olds,
                parent,
                ids[k],
                DataView::Text(text@),
            ) && m[ids[k]].children.len() == 0,
            Markup::Comment => ids.len() == k + 1 && made_node(
                m,
                olds,
                parent,
                ids[k],
                DataView::Comment,
            ) && m[ids[k]].children.len() == 0,
            Markup::Element { tag, attrs, children } => if is_frame_tag(tag@) {
                shows_list(m, olds, parent, ids.skip(k), children@)
            } else {
                ids.len() == k + 1 && made_node(
                    m,
                    olds,
                    parent,
                    ids[k],
                    element_data(tag@, attrs@),
                ) && shows_list(m, olds, ids[k], m[ids[k]].children, children@)
            },
            Markup::Other => ids.len() == k,
        }
    }
}

/// Markup is shown by as many nodes as it makes.
pub proof fn lemma_shows_count(
    m: Map<NodeId, NodeView>,
    olds: Set<NodeId>,
    parent: NodeId,
    ids: Seq<NodeId>,
    nodes: Seq<Markup>,
)
    requires
        shows_list(m, olds, parent, ids, nodes),
    ensures
        ids.len() == made_count(nodes),
    decreases nodes,
{
    if nodes.len() > 0 {
        let k = made_count(nodes.drop_last()) as int;
        lemma_shows_count(m, olds, parent, ids.take(k), nodes.drop_last());
        match nodes.last() {
            Markup::Element { tag, attrs, children } => {
                if is_frame_tag(tag@) {
                    lemma_shows_count(m, olds, parent, ids.skip(k), children@);
                }
            },
            _ => {},
        }
    }
}

/// What shows markup still shows it where the nodes made since `olds` are
/// as they were, and where less is taken for old.
pub proof fn lemma_shows_frame(
    m1: Map<NodeId, NodeView>,
    olds1: Set<NodeId>,
    m2: Map<NodeId, NodeView>,
    olds2: Set<NodeId>,
    parent: NodeId,
    ids: Seq<NodeId>,
    nodes: Seq<Markup>,
)
    requires
        shows_list(m1, olds1, parent, ids, nodes),
        olds2.subset_of(olds1),
        forall|x: NodeId|
            #[trigger] m1.contains_key(x) && !olds1.contains(x) ==> m2.contains_key(x) && m2[x]
                == m1[x],
    ensures
        shows_list(m2, olds2, parent, ids, nodes),
    decreases nodes,
{
    if nodes.len() > 0 {
        let k = made_count(nodes.drop_last()) as int;
        lemma_shows_frame(m1, olds1, m2, olds2, parent, ids.take(k), nodes.drop_last());
        match nodes.last() {
            Markup::Element { tag, attrs, children } => {
                if is_frame_tag(tag@) {
                    lemma_shows_frame(m1, olds1, m2, olds2, parent, ids.skip(k), children@);
                } else {
                    assert(m1.contains_key(ids[k]));
                    lemma_shows_frame(
                        m1,
                        olds1,
                        m2,
                        olds2,
                        ids[k],
                        m1[ids[k]].children,
                        children@,
                    );
                }
            },
            Markup::Text(_) => {
                assert(m1.contains_key(ids[k]));
            },
            Markup::Comment => {
                assert(m1.contains_key(ids[k]));
            },
            Markup::Other => {},
        }
    }
}

/// What shows markup under a detached node still shows it where the nodes
/// made since `olds`, but for that node, are as they were.
pub proof fn lemma_shows_below(
    m1: Map<NodeId, NodeView>,
    m2: Map<NodeId, NodeView>,
    olds: Set<NodeId>,
    top: NodeId,
    parent: NodeId,
    ids: Seq<NodeId>,
    nodes: Seq<Markup>,
)
    requires
        shows_list(m1, olds, parent, ids, nodes),
        m1.contains_key(top) ==> m1[top].parent is None,
        forall|x: NodeId|
            #[trigger] m1.contains_key(x) && !olds.contains(x) && x != top ==> m2.contains_key(x)
                && m2[x] == m1[x],
    ensures
        shows_list(m2, olds, parent, ids, nodes),
    decreases nodes,
{
    if nodes.len() > 0 {
        let k = made_count(nodes.drop_last()) as int;
        lemma_shows_below(m1, m2, olds, top, parent, ids.take(k), nodes.drop_last());
        match nodes.last() {
            Markup::Element { tag, attrs, children } => {
                if is_frame_tag(tag@) {
                    lemma_shows_below(m1, m2, olds, top, parent, ids.skip(k), children@);
                } else {
                    assert(m1.contains_key(ids[k]));
                    lemma_shows_below(
                        m1,
                        m2,
                        olds,
                        top,
                        ids[k],
                        m1[ids[k]].children,
                        children@,
                    );
                }
            },
            Markup::Text(_) => {
                assert(m1.contains_key(ids[k]));
            },
            Markup::Comment => {
                assert(m1.contains_key(ids[k]));
            },
            Markup::Other => {},
        }
    }
}

/// What shows the beginning of a list of markup, with what shows the next
/// node of the list behind it, shows the list up to that node.
pub proof fn lemma_shows_next(
    m: Map<NodeId, NodeView>,
    olds: Set<NodeId>,
    parent: NodeId,
    ids: Seq<NodeId>,
    more: Seq<NodeId>,
    nodes: Seq<Markup>,
    i: int,
)
    requires
        0 <= i < nodes.len(),
        shows_list(m, olds, parent, ids, nodes.take(i)),
        match nodes[i] {
            Markup::Text(text) => more.len() == 1 && made_node(
                m,
                olds,
                parent,
                more[0],
                DataView::Text(text@),
            ) && m[more[0]].children.len() == 0,
            Markup::Comment => more.len() == 1 && made_node(
                m,
                olds,
                parent,
                more[0],
                DataView::Comment,
            ) && m[more[0]].children.len() == 0,
            Markup::Element { tag, attrs, children } => if is_frame_tag(tag@) {
                shows_list(m, olds, parent, more, children@)
            } else {
                more.len() == 1 && made_node(
                    m,
                    olds,
                    parent,
                    more[0],
                    element_data(tag@, attrs@),
                ) && shows_list(m, olds, more[0], m[more[0]].children, children@)
            },
            Markup::Other => more.len() == 0,
        },
    ensures
        shows_list(m, olds, parent, ids + more, nodes.take(i + 1)),
{
    let next = nodes.take(i + 1);
    let all = ids + more;
    assert(next.drop_last() =~= nodes.take(i));
    assert(next.last() == nodes[i]);
    lemma_shows_count(m, olds, parent, ids, nodes.take(i));
    let k = made_count(next.drop_last()) as int;
    assert(all.take(k) =~= ids);
    assert(all.skip(k) =~= more);
    if more.len() == 1 {
        assert(all[k] == more[0]);
    }
}

/// Makes a node for `data`, writes `attrs` onto it where it is an element,
/// and puts it at the end of the children of `parent`.
fn append_element(dom: &mut Dom, parent: &Element, tag: &str, attrs: &Vec<(String, String)>) -> (el:
    Element)
    requires
        old(dom).wf(),
        old(dom).doc@.contains_key(parent.0.0),
    ensures
        final(dom).events == old(dom).events,
        final(dom).doc.grows_under(&old(dom).doc, parent.0.0),
        made_node(
            final(dom).doc@,
            old(dom).doc@.dom(),
            parent.0.0,
            el.0.0,
            element_data(tag@, attrs@),
        ),
        final(dom).doc@[el.0.0].children.len() == 0,
        final(dom).doc@[parent.0.0].children == old(dom).doc@[parent.0.0].children.push(el.0.0),
{
    let el = dom.create_element(tag, None);
    let ghost made = *dom;
    let mut i: usize = 0;
    assert(attrs@.take(0) =~= Seq::empty());
    while i < attrs.len()
        invariant
            i <= attrs.len(),
            dom.wf(),
            dom.events == old(dom).events,
            crate::attribute::touches(&dom.doc, &made.doc, el.0.0),
            made.doc@.contains_key(el.0.0),
            dom.doc@[el.0.0].data == element_data(tag@, attrs@.take(i as int)),
        decreases attrs.len() - i,
    {
        let ghost middle = *dom;
        dom.set_attribute(&el, attrs[i].0.as_str(), attrs[i].1.as_str());
        proof {
            assert(dom.doc@.dom() =~= middle.doc@.dom());
            crate::attribute::lemma_touches_trans(&dom.doc, &middle.doc, &made.doc, el.0.0);
            assert(attrs@.take(i + 1).drop_last() =~= attrs@.take(i as int));
            assert(attrs@.take(i + 1).last() == attrs@[i as int]);
        }
        i = i + 1;
    }
    assert(attrs@.take(i as int) =~= attrs@);
    let ghost written = *dom;
    proof {
        written.doc.lemma_new_node_written(
            &made.doc,
            &old(dom).doc,
            el.0.0,
            made.doc@[el.0.0].data,
        );
        written.doc.lemma_new_nodes_adoptable(&old(dom).doc, seq![el.0.0], parent.0.0);
    }
    dom.insert_node(parent, &el.0, None);
    proof {
        dom.doc.lemma_appended(&written.doc, &old(dom).doc, parent.0.0, el.0.0);
    }
    el
}

/// Makes a text node that holds `text` and puts it at the end of the
/// children of `parent`.
fn append_text(dom: &mut Dom, parent: &Element, text: &str) -> (node: crate::dom::Text)
    requires
        old(dom).wf(),
        old(dom).doc@.contains_key(parent.0.0),
    ensures
        final(dom).events == old(dom).events,
        final(dom).doc.grows_under(&old(dom).doc, parent.0.0),
        made_node(
            final(dom).doc@,
            old(dom).doc@.dom(),
            parent.0.0,
            node.0.0,
            DataView::Text(text@),
        ),
        final(dom).doc@[node.0.0].children.len() == 0,
        final(dom).doc@[parent.0.0].children == old(dom).doc@[parent.0.0].children.push(node.0.0),
{
    let node = dom.create_text_node(text);
    let ghost made = *dom;
    proof {
        made.doc.lemma_new_node_written(
            &made.doc,
            &old(dom).doc,
            node.0.0,
            made.doc@[node.0.0].data,
        );
        made.doc.lemma_new_nodes_adoptable(&old(dom).doc, seq![node.0.0], parent.0.0);
    }
    dom.insert_node(parent, &node.0, None);
    proof {
        dom.doc.lemma_appended(&made.doc, &old(dom).doc, parent.0.0, node.0.0);
    }
    node
}

/// Makes a comment and puts it at the end of the children of `parent`.
fn append_comment(dom: &mut Dom, parent: &Element) -> (node: crate::dom::Comment)
    requires
        old(dom).wf(),
        old(dom).doc@.contains_key(parent.0.0),
    ensures
        final(dom).events == old(dom).events,
        final(dom).doc.grows_under(&old(dom).doc, parent.0.0),
        made_node(final(dom).doc@, old(dom).doc@.dom(), parent.0.0, node.0.0, DataView::Comment),
        final(dom).doc@[node.0.0].children.len() == 0,
        final(dom).doc@[parent.0.0].children == old(dom).doc@[parent.0.0].children.push(node.0.0),
{
    let node = dom.create_placeholder();
    let ghost made = *dom;
    proof {
        made.doc.lemma_new_node_written(
            &made.doc,
            &old(dom).doc,
            node.0.0,
            made.doc@[node.0.0].data,
        );
        made.doc.lemma_new_nodes_adoptable(&old(dom).doc, seq![node.0.0], parent.0.0);
    }
    dom.insert_node(parent, &node.0, None);
    proof {
        dom.doc.lemma_appended(&made.doc, &old(dom).doc, parent.0.0, node.0.0);
    }
    node
}

/// Makes the nodes of the parsed markup `nodes` under `parent`, in order,
/// each element with its attributes and with its own children under it. The
/// elements that frame a document, `html`, `head` and `body`, are not made:
/// their children are made in their place.
pub fn traverse_dom(dom: &mut Dom, parent: &Element, nodes: &Vec<Markup>)
    requires
        old(dom).wf(),
        old(dom).doc@.contains_key(parent.0.0),
    ensures
        final(dom).events == old(dom).events,
        final(dom).doc.grows_under(&old(dom).doc, parent.0.0),
        shows_list(
            final(dom).doc@,
            old(dom).doc@.dom(),
            parent.0.0,
            final(dom).doc@[parent.0.0].children.skip(
                old(dom).doc@[parent.0.0].children.len() as int,
            ),
            nodes@,
        ),
    decreases nodes,
{
    let ghost olds = old(dom).doc@.dom();
    let ghost start = old(dom).doc@[parent.0.0].children.len() as int;
    let mut i: usize = 0;
    proof {
        dom.doc.lemma_grows_refl(parent.0.0);
        assert(nodes@.take(0) =~= Seq::empty());
        assert(dom.doc@[parent.0.0].children.skip(start) =~= Seq::empty());
    }
    while i < nodes.len()
        invariant
            i <= nodes.len(),
            old(dom).wf(),
            old(dom).doc@.contains_key(parent.0.0),
            olds == old(dom).doc@.dom(),
            start == old(dom).doc@[parent.0.0].children.len(),
            dom.events == old(dom).events,
            dom.doc.grows_under(&old(dom).doc, parent.0.0),
            shows_list(
                dom.doc@,
                olds,
                parent.0.0,
                dom.doc@[parent.0.0].children.skip(start),
                nodes@.take(i as int),
            ),
        decreases nodes.len() - i,
    {
        let ghost middle = *dom;
        let ghost shown = middle.doc@[parent.0.0].children.skip(start);
        assert(middle.doc@.contains_key(parent.0.0));
        proof {
            assert(old(dom).doc@[parent.0.0].children.is_prefix_of(middle.doc@[parent.0.0].children));
        }
        match &nodes[i] {
            Markup::Text(contents) => {
                let node = append_text(dom, parent, contents.as_str());
                proof {
                    lemma_grown_shows(&middle.doc, &dom.doc, olds, parent.0.0, shown, nodes@, i as int);
                    let more = seq![node.0.0];
                    assert(dom.doc@[parent.0.0].children.skip(start) =~= shown + more);
                    lemma_shows_next(dom.doc@, olds, parent.0.0, shown, more, nodes@, i as int);
                }
            },
            Markup::Comment => {
                let node = append_comment(dom, parent);
                proof {
                    lemma_grown_shows(&middle.doc, &dom.doc, olds, parent.0.0, shown, nodes@, i as int);
                    let more = seq![node.0.0];
                    assert(dom.doc@[parent.0.0].children.skip(start) =~= shown + more);
                    lemma_shows_next(dom.doc@, olds, parent.0.0, shown, more, nodes@, i as int);
                }
            },
            Markup::Element { tag, attrs, children } => {
                if str_eq(tag.as_str(), "html") || str_eq(tag.as_str(), "head") || str_eq(
                    tag.as_str(),
                    "body",
                ) {
                    traverse_dom(dom, parent, children);
                    proof {
                        lemma_grown_shows(
                            &middle.doc,
                            &dom.doc,
                            olds,
                            parent.0.0,
                            shown,
                            nodes@,
                            i as int,
                        );
                        let kids = dom.doc@[parent.0.0].children;
                        let before = middle.doc@[parent.0.0].children;
                        let more = kids.skip(before.len() as int);
                        assert(before.is_prefix_of(kids));
                        assert(kids.skip(start) =~= shown + more);
                        lemma_shows_frame(
                            dom.doc@,
                            middle.doc@.dom(),
                            dom.doc@,
                            olds,
                            parent.0.0,
                            more,
                            children@,
                        );
                        lemma_shows_next(dom.doc@, olds, parent.0.0, shown, more, nodes@, i as int);
                    }
                } else {
                    let node = append_element(dom, parent, tag.as_str(), attrs);
                    let ghost appended = *dom;
                    traverse_dom(dom, &node, children);
                    proof {
                        dom.doc.lemma_grows_inside(
                            &appended.doc,
                            &middle.doc,
                            parent.0.0,
                            node.0.0,
                        );
                        lemma_grown_shows(
                            &middle.doc,
                            &dom.doc,
                            olds,
                            parent.0.0,
                            shown,
                            nodes@,
                            i as int,
                        );
                        let more = seq![node.0.0];
                        assert(dom.doc@[parent.0.0].children == appended.doc@[parent.0.0].children);
                        assert(dom.doc@[parent.0.0].children.skip(start) =~= shown + more);
                        assert(appended.doc@[node.0.0].children.len() == 0);
                        assert(dom.doc@[node.0.0].children.skip(0) =~= dom.doc@[node.0.0].children);
                        lemma_shows_frame(
                            dom.doc@,
                            appended.doc@.dom(),
                            dom.doc@,
                            olds,
                            node.0.0,
                            dom.doc@[node.0.0].children,
                            children@,
                        );
                        lemma_shows_next(dom.doc@, olds, parent.0.0, shown, more, nodes@, i as int);
                    }
                }
            },
            Markup::Other => {
                proof {
                    dom.doc.lemma_grows_refl(parent.0.0);
                    assert(shown + Seq::<NodeId>::empty() =~= shown);
                    lemma_shows_next(
                        dom.doc@,
                        olds,
                        parent.0.0,
                        shown,
                        Seq::empty(),
                        nodes@,
                        i as int,
                    );
                }
            },
        }
        proof {
            dom.doc.lemma_grows_trans(&middle.doc, &old(dom).doc, parent.0.0);
        }
        i = i + 1;
    }
    assert(nodes@.take(i as int) =~= nodes@);
}

/// What shows markup under `parent` still shows it once the document has
/// grown under `parent`.
proof fn lemma_grown_shows(
    middle: &Arena,
    after: &Arena,
    olds: Set<NodeId>,
    parent: NodeId,
    shown: Seq<NodeId>,
    nodes: Seq<Markup>,
    i: int,
)
    requires
        olds.contains(parent),
        after.grows_under(middle, parent),
        shows_list(middle@, olds, parent, shown, nodes.take(i)),
    ensures
        shows_list(after@, olds, parent, shown, nodes.take(i)),
{
    assert forall|x: NodeId| #[trigger] middle@.contains_key(x) && !olds.contains(x) implies after@.contains_key(
        x,
    ) && after@[x] == middle@[x] by {
        assert(x != parent);
    }
    lemma_shows_frame(middle@, olds, after@, olds, parent, shown, nodes.take(i));
}

impl Dom {
    /// Makes a detached `<div>` that holds the nodes of the parsed markup
    /// `nodes`; see [`traverse_dom`] for what is made of them.
    pub fn create_element_from_markup(&mut self, nodes: &Vec<Markup>) -> (tpl: Element)
        requires
            old(self).wf(),
        ensures
            final(self).wf(),
            final(self).events == old(self).events,
            final(self).extends(old(self)),
            final(self).doc.detached(seq![tpl.0.0]),
            !old(self).doc@.contains_key(tpl.0.0),
            final(self).doc@[tpl.0.0].data == (DataView::Element {
                tag: "div"@,
                namespace: None,
                attrs: Seq::empty(),
                widget: WidgetView::Plain,
            }),
            shows_list(
                final(self).doc@,
                old(self).doc@.dom(),
                tpl.0.0,
                final(self).doc@[tpl.0.0].children,
                nodes@,
            ),
    {
        let tpl = self.create_element("div", None);
        let ghost made = *self;
        traverse_dom(self, &tpl, nodes);
        proof {
            let id = tpl.0.0;
            let grown = self.doc;
            assert(made.doc@.contains_key(id));
            assert forall|x: NodeId| #[trigger] old(self).doc@.contains_key(x) implies grown@.contains_key(
                x,
            ) && grown@[x] == old(self).doc@[x] by {
                assert(made.doc@.contains_key(x));
                assert(x != id);
            }
            let (earlier, between, latest) = (old(self).doc.pending(), made.doc.pending(), grown.pending());
            assert(earlier =~= latest.subrange(0, earlier.len() as int)) by {
                assert(between =~= latest.subrange(0, between.len() as int));
            }
            assert forall|a: NodeId, x: NodeId| old(self).doc@.contains_key(x) implies grown.ancestor(
                a,
                x,
            ) == old(self).doc.ancestor(a, x) by {
                assert(made.doc@.contains_key(x));
            }
            assert(old(self).doc@.contains_key(ROOT));
            assert(seq![id].no_duplicates());
            assert(old(self).events@.submap_of(self.events@));
            assert(grown@[id].children.skip(0) =~= grown@[id].children);
            lemma_shows_frame(
                grown@,
                made.doc@.dom(),
                grown@,
                old(self).doc@.dom(),
                id,
                grown@[id].children,
                nodes@,
            );
        }
        tpl
    }

    /// Makes a detached `<div>` that holds what the HTML parser makes of
    /// `html`; see [`Dom::create_element_from_markup`].
    pub fn create_element_from_html(&mut self, html: &str) -> (tpl: Element)
        requires
            old(self).wf(),
        ensures
            final(self).wf(),
            final(self).events == old(self).events,
            final(self).extends(old(self)),
            final(self).doc.detached(seq![tpl.0.0]),
            !old(self).doc@.contains_key(tpl.0.0),
            final(self).doc@[tpl.0.0].data == (DataView::Element {
                tag: "div"@,
                namespace: None,
                attrs: Seq::empty(),
                widget: WidgetView::Plain,
            }),
            shows_list(
                final(self).doc@,
                old(self).doc@.dom(),
                tpl.0.0,
                final(self).doc@[tpl.0.0].children,
                parsed_markup(html@),
            ),
    {
        let nodes = parse_markup(html);
        self.create_element_from_markup(&nodes)
    }
}

/// The characters that `text` holds or borrows.
fn cow_str<'a>(text: &'a Cow<'static, str>) -> (r: &'a str)
    ensures
        r@ == text@,
{
    match text {
        Cow::Borrowed(b) => b,
        Cow::Owned(o) => o.as_str(),
    }
}

/// A node that outlives the removal of `gone`, and is no parent of it, keeps
/// its child list.
proof fn lemma_kept_child_list(before: &Arena, after: &Arena, gone: NodeId, x: NodeId)
    requires
        after.without(before, seq![gone]),
        after@.contains_key(x),
        before@.contains_key(gone) ==> before@[gone].parent != Some(x),
    ensures
        after@[x] == before@[x],
{
    let roots = seq![gone];
    assert(!(exists|k: int|
        0 <= k < roots.len() && before@.contains_key(#[trigger] roots[k])
            && before@[roots[k]].parent == Some(x))) by {
        assert(roots[0] == gone);
    }
    assert(after@[x].children == before@[x].children);
}

/// An element that holds nothing that reacts, and whose content is known as
/// markup.
pub struct InertElement {
    html: Cow<'static, str>,
}

/// Retained view state for [`InertElement`]: the markup last shown, and the
/// wrapper element that shows it.
pub struct InertElementState(pub Cow<'static, str>, pub Element);

impl InertElement {
    /// The markup of the element.
    pub closed spec fn markup(&self) -> Seq<char> {
        self.html@
    }

    /// An inert element with the content `html`.
    pub fn new(html: Cow<'static, str>) -> (element: InertElement)
        ensures
            element.markup() == html@,
    {
        InertElement { html }
    }
}

impl Mountable for InertElementState {
    open spec fn roots(&self) -> Seq<NodeId> {
        seq![self.1.0.0]
    }

    open spec fn anchor(&self, doc: &Arena) -> Option<NodeId> {
        node_anchor(doc, self.1.0.0)
    }

    proof fn lemma_anchor(&self, doc: &Arena) {
    }

    open spec fn released(&self, before: &Dom, after: &Dom, state: &Self) -> bool {
        *after == *before && *state == *self
    }

    open spec fn unmounted(&self, before: &Dom, after: &Dom, state: &Self) -> bool {
        *state == *self && node_unmounted(before, after, self.1.0.0)
    }

    fn release(&mut self, dom: &mut Dom) {
    }

    fn unmount(&mut self, dom: &mut Dom) {
        assert(self.roots()[0] == self.1.0.0);
        unmount_node(dom, self.1.0.0);
    }

    fn mount(&mut self, dom: &mut Dom, parent: &Element, marker: Option<&Node>) {
        let node = self.1.0;
        dom.insert_node(parent, &node, marker);
    }
}

impl Anchor for InertElementState {
    fn insert_before_this<M: Mountable>(&self, dom: &mut Dom, child: &mut M) -> (inserted: bool) {
        insert_before_node(dom, self.1.0.0, child)
    }
}

impl Render for InertElement {
    type State = InertElementState;

    open spec fn shown_by(&self, state: &InertElementState) -> bool {
        self.markup() == state.0@
    }

    open spec fn built(&self, before: &Dom, after: &Dom, state: &InertElementState) -> bool {
        let wrapper = state.1.0.0;
        &&& state.0@ == self.markup()
        &&& after.events == before.events
        &&& after.doc@[wrapper].data == (DataView::Element {
            tag: "div"@,
            namespace: None,
            attrs: Seq::empty(),
            widget: WidgetView::Plain,
        })
        &&& shows_list(
            after.doc@,
            before.doc@.dom(),
            wrapper,
            after.doc@[wrapper].children,
            parsed_markup(self.markup()),
        )
    }

    open spec fn rebuilt(
        &self,
        before: &Dom,
        after: &Dom,
        was: &InertElementState,
        state: &InertElementState,
    ) -> bool {
        let wrapper = state.1.0.0;
        let replaced = was.1.0.0;
        &&& state.0@ == self.markup()
        &&& after.events == before.events
        &&& if self.markup() == was.0@ {
            *after == *before && *state == *was
        } else {
            &&& !before.doc@.contains_key(wrapper)
            &&& after.doc@.contains_key(wrapper)
            &&& after.doc@[wrapper].data == (DataView::Element {
                tag: "div"@,
                namespace: None,
                attrs: Seq::empty(),
                widget: WidgetView::Plain,
            })
            &&& shows_list(
                after.doc@,
                before.doc@.dom(),
                wrapper,
                after.doc@[wrapper].children,
                parsed_markup(self.markup()),
            )
            &&& before.doc@.contains_key(replaced) && replaced != ROOT
                ==> !after.doc@.contains_key(replaced)
            &&& after.doc@[wrapper].parent == (match node_anchor(&before.doc, replaced) {
                Some(_) => before.doc@[replaced].parent,
                None => None,
            })
            &&& node_anchor(&before.doc, replaced) is Some ==> {
                let parent = before.doc@[replaced].parent->0;
                let list = before.doc@[parent].children;
                after.doc@[parent].children == list.update(list.index_of(replaced), wrapper)
            }
        }
    }

    fn build(self, dom: &mut Dom) -> (state: InertElementState) {
        let el = dom.create_element_from_html(cow_str(&self.html));
        let state = InertElementState(self.html, el);
        assert(state.roots() =~= seq![el.0.0]);
        state
    }

    fn rebuild(self, dom: &mut Dom, state: &mut InertElementState) {
        if !str_eq(cow_str(&self.html), cow_str(&state.0)) {
            let old_el = state.1;
            // A wrapper that is gone has no place to hand on.
            let replaces = dom.doc.contains(old_el.0.0) && old_el.0.0 != ROOT;
            let mut new_el = dom.create_element_from_html(cow_str(&self.html));
            let ghost made = *dom;
            let ghost olds = old(dom).doc@.dom();
            let ghost nodes = parsed_markup(self.markup());
            let ghost id = new_el.0.0;
            proof {
                assert(made.doc@.contains_key(seq![id][0]));
                assert(made.doc@[seq![id][0]].parent is None);
            }
            if replaces {
                proof {
                    if node_anchor(&made.doc, old_el.0.0) is Some {
                        let parent = made.doc@[old_el.0.0].parent->0;
                        assert(old(dom).doc@.contains_key(parent));
                        made.doc.lemma_new_nodes_adoptable(&old(dom).doc, new_el.roots(), parent);
                    }
                }
                old_el.insert_before_this(dom, &mut new_el);
                let ghost put = *dom;
                unmount_node(dom, old_el.0.0);
                proof {
                    // What was made since stands apart from the old
                    // wrapper, so it outlives it as it is.
                    assert forall|x: NodeId|
                        #[trigger] made.doc@.contains_key(x) && !olds.contains(x) implies put.doc@.contains_key(
                        x,
                    ) && !put.doc.ancestor(old_el.0.0, x) && (x != id ==> put.doc@[x]
                        == made.doc@[x]) && put.doc@[x].children == made.doc@[x].children by {
                        made.doc.lemma_old_node_is_no_ancestor(&old(dom).doc, old_el.0.0, x);
                        if node_anchor(&made.doc, old_el.0.0) is Some {
                            let parent = made.doc@[old_el.0.0].parent->0;
                            made.doc.lemma_parent_holds_child(old_el.0.0);
                            assert(seq![id].contains(x) ==> x == id);
                        }
                    }
                    assert(!put.doc.any_ancestor(seq![old_el.0.0], id)) by {
                        if put.doc.any_ancestor(seq![old_el.0.0], id) {
                            let k = choose|k: int|
                                0 <= k < 1 && crate::arena::ancestor_in(
                                    put.doc@,
                                    put.doc.depth(),
                                    #[trigger] seq![old_el.0.0][k],
                                    id,
                                );
                        }
                    }
                    assert forall|x: NodeId|
                        #[trigger] made.doc@.contains_key(x) && !olds.contains(x) && x
                            != id implies dom.doc@.contains_key(x) && dom.doc@[x]
                        == made.doc@[x] by {
                        assert(put.doc@.contains_key(x));
                        assert(!put.doc.any_ancestor(seq![old_el.0.0], x)) by {
                            if put.doc.any_ancestor(seq![old_el.0.0], x) {
                                let k = choose|k: int|
                                    0 <= k < 1 && crate::arena::ancestor_in(
                                        put.doc@,
                                        put.doc.depth(),
                                        #[trigger] seq![old_el.0.0][k],
                                        x,
                                    );
                            }
                        }
                        lemma_kept_child_list(&put.doc, &dom.doc, old_el.0.0, x);
                    }
                    lemma_kept_child_list(&put.doc, &dom.doc, old_el.0.0, id);
                    if node_anchor(&old(dom).doc, old_el.0.0) is Some {
                        let parent = old(dom).doc@[old_el.0.0].parent->0;
                        let list = old(dom).doc@[parent].children;
                        let at = list.index_of(old_el.0.0);
                        assert(list.contains(old_el.0.0));
                        assert(made.doc@[parent] == old(dom).doc@[parent]);
                        let grown = put.doc@[parent].children;
                        assert(grown == list.subrange(0, at) + seq![id] + list.subrange(
                            at,
                            list.len() as int,
                        ));
                        assert(grown[at + 1] == old_el.0.0);
                        assert(grown.no_duplicates());
                        assert(grown.index_of(old_el.0.0) == at + 1) by {
                            assert(grown.contains(old_el.0.0));
                        }
                        assert(put.doc@[old_el.0.0].parent == Some(parent));
                        assert(grown.remove(at + 1) =~= list.update(at, id));
                    }
                    lemma_shows_below(
                        made.doc@,
                        dom.doc@,
                        olds,
                        id,
                        id,
                        made.doc@[id].children,
                        nodes,
                    );
                    assert(seq![old_el.0.0][0] == old_el.0.0);
                }
            }
            state.1 = new_el;
            state.0 = self.html;
        }
    }
}

impl RenderHtml for InertElement {
    const EXISTS: bool = true;

    open spec fn html(&self, position: Position, escape: bool, mark_branches: bool) -> Seq<char> {
        self.markup()
    }

    open spec fn position_after(&self, position: Position) -> Position {
        Position::NextChild
    }

    fn dry_resolve(&mut self) {
    }

    open spec fn estimate(&self) -> usize {
        crate::strings::utf8_len(self.markup()) as usize
    }

    fn html_len(&self) -> (len: usize) {
        let len: usize = text_len(cow_str(&self.html));
        assert(len == self.estimate());
        len
    }

    fn to_html_with_buf(
        self,
        buf: &mut String,
        position: &mut Position,
        _escape: bool,
        _mark_branches: bool,
    ) {
        buf.append(cow_str(&self.html));
        *position = Position::NextChild;
        assert(self.position_after(*old(position)) == Position::NextChild);
    }
}

} // verus!
