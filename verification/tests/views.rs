use leptos_blitz::arena::{NodeData, NodeId, StyleSignal, ROOT};
use leptos_blitz::attribute::{Attr, Class, Id, Style};
use leptos_blitz::dom::{Element, Node};
use leptos_blitz::element::{AddAnyAttr, ElementChild, HtmlElement};
use leptos_blitz::elements::{br, div, input, p, span};
use leptos_blitz::event::{click, handle_event, input as input_event};
use leptos_blitz::inert::{InertElement, Markup};
use leptos_blitz::into_view::IntoView;
use leptos_blitz::mount::mount_to;
use leptos_blitz::renderer::Dom;
use leptos_blitz::view::{Anchor, IntoRender, Mountable, Render};
use std::borrow::Cow;
use std::rc::Rc;
use std::sync::Arc;

fn children(dom: &Dom, id: NodeId) -> Vec<NodeId> {
    dom.doc.get_node(id).unwrap().children.clone()
}

fn text_of(dom: &Dom, id: NodeId) -> String {
    match &dom.doc.get_node(id).unwrap().data {
        NodeData::Text(t) => t.clone(),
        _ => panic!("no text node"),
    }
}

fn tag_of(dom: &Dom, id: NodeId) -> String {
    match &dom.doc.get_node(id).unwrap().data {
        NodeData::Element(e) => e.tag.clone(),
        _ => panic!("no element"),
    }
}

fn attrs_of(dom: &Dom, id: NodeId) -> Vec<(String, String)> {
    match &dom.doc.get_node(id).unwrap().data {
        NodeData::Element(e) => {
            e.attrs.iter().map(|a| (a.name.clone(), a.value.clone())).collect()
        },
        _ => panic!("no element"),
    }
}

fn attr(dom: &Dom, id: NodeId, name: &str) -> Option<String> {
    attrs_of(dom, id).into_iter().find(|(n, _)| n == name).map(|(_, v)| v)
}

/// What can be seen of the document: every live node among the first
/// handles, with its links and its content.
fn snapshot(dom: &Dom) -> Vec<(NodeId, Option<NodeId>, Vec<NodeId>, String)> {
    let mut seen = Vec::new();
    for id in 0..64 {
        if let Some(node) = dom.doc.get_node(id) {
            let content = match &node.data {
                NodeData::Document => "#document".to_string(),
                NodeData::Comment => "#comment".to_string(),
                NodeData::Text(t) => format!("#text {}", t),
                NodeData::Element(e) => format!(
                    "<{}> {:?}",
                    e.tag,
                    e.attrs.iter().map(|a| (a.name.clone(), a.value.clone())).collect::<Vec<_>>()
                ),
            };
            seen.push((id, node.parent, node.children.clone(), content));
        }
    }
    seen
}

#[test]
fn a_string_is_built_as_a_detached_text_node() {
    let mut dom = Dom::new();
    let state = "hello".build(&mut dom);
    let id = state.node.node_id();
    assert_eq!(text_of(&dom, id), "hello");
    assert_eq!(dom.doc.parent(id), None);
    assert_eq!(state.str, "hello");
}

#[test]
fn rebuild_with_an_equal_value_changes_nothing() {
    let mut dom = Dom::new();
    let root = dom.create_root_element();
    let view = div()
        .style("color:red")
        .on(click, 4)
        .child("a")
        .child(String::from("b"))
        .child(7u32);
    let mut state = mount_to(&mut dom, root, view);
    dom.doc.take_signals();
    let before = snapshot(&dom);
    let handlers = dom.events.len();
    let again = div()
        .style("color:red")
        .on(click, 4)
        .child("a")
        .child(String::from("b"))
        .child(7u32);
    again.rebuild(&mut dom, &mut state);
    assert_eq!(snapshot(&dom), before);
    assert_eq!(dom.events.len(), handlers);
    assert_eq!(dom.doc.take_signals(), vec![]);
}

#[test]
fn rebuild_of_a_leaf_writes_that_leaf_alone() {
    let mut dom = Dom::new();
    let root = dom.create_root_element();
    let mut state = mount_to(&mut dom, root, ("one", "two", 3i32));
    let before = snapshot(&dom);
    let leaf = state.1.node.node_id();
    ("one", "changed", 3i32).rebuild(&mut dom, &mut state);
    let after = snapshot(&dom);
    assert_eq!(text_of(&dom, leaf), "changed");
    assert_eq!(state.1.str, "changed");
    for (b, a) in before.iter().zip(after.iter()) {
        if b.0 == leaf {
            assert_eq!((a.0, a.1, &a.2), (b.0, b.1, &b.2));
        } else {
            assert_eq!(a, b);
        }
    }
    assert_eq!(before.len(), after.len());
}

#[test]
fn every_string_type_shows_its_text() {
    let mut dom = Dom::new();
    let mut owned = String::from("a").build(&mut dom);
    let mut rc = Rc::<str>::from("b").build(&mut dom);
    let mut arc = Arc::<str>::from("c").build(&mut dom);
    let mut cow = Cow::Borrowed("d").build(&mut dom);
    assert_eq!(text_of(&dom, owned.node.node_id()), "a");
    assert_eq!(text_of(&dom, rc.node.node_id()), "b");
    assert_eq!(text_of(&dom, arc.node.node_id()), "c");
    assert_eq!(text_of(&dom, cow.node.node_id()), "d");
    String::from("a2").rebuild(&mut dom, &mut owned);
    Rc::<str>::from("b2").rebuild(&mut dom, &mut rc);
    Arc::<str>::from("c2").rebuild(&mut dom, &mut arc);
    Cow::<str>::Owned("d2".to_string()).rebuild(&mut dom, &mut cow);
    assert_eq!(text_of(&dom, owned.node.node_id()), "a2");
    assert_eq!(text_of(&dom, rc.node.node_id()), "b2");
    assert_eq!(text_of(&dom, arc.node.node_id()), "c2");
    assert_eq!(text_of(&dom, cow.node.node_id()), "d2");
    assert_eq!(&*rc.str, "b2");
    assert_eq!(&*arc.str, "c2");
}

#[test]
fn scalars_show_their_text() {
    let mut dom = Dom::new();
    let mut n = 0u64.build(&mut dom);
    assert_eq!(text_of(&dom, n.0.node_id()), "0");
    u64::MAX.rebuild(&mut dom, &mut n);
    assert_eq!(text_of(&dom, n.0.node_id()), "18446744073709551615");
    let mut i = (-12i64).build(&mut dom);
    assert_eq!(text_of(&dom, i.0.node_id()), "-12");
    i64::MIN.rebuild(&mut dom, &mut i);
    assert_eq!(text_of(&dom, i.0.node_id()), "-9223372036854775808");
    i64::MAX.rebuild(&mut dom, &mut i);
    assert_eq!(text_of(&dom, i.0.node_id()), "9223372036854775807");
    let small = (-128i8).build(&mut dom);
    assert_eq!(text_of(&dom, small.0.node_id()), "-128");
    let byte = 255u8.build(&mut dom);
    assert_eq!(text_of(&dom, byte.0.node_id()), "255");
    let size = 42usize.build(&mut dom);
    assert_eq!(text_of(&dom, size.0.node_id()), "42");
    let mut b = true.build(&mut dom);
    assert_eq!(text_of(&dom, b.0.node_id()), "true");
    false.rebuild(&mut dom, &mut b);
    assert_eq!(text_of(&dom, b.0.node_id()), "false");
    let c = 'é'.build(&mut dom);
    assert_eq!(text_of(&dom, c.0.node_id()), "é");
}

#[test]
fn the_empty_view_has_no_place_to_insert_before() {
    let mut dom = Dom::new();
    let root = dom.create_root_element();
    let mut other = "x".build(&mut dom);
    let before = snapshot(&dom);
    let unit = ().build(&mut dom);
    assert!(!unit.insert_before_this(&mut dom, &mut other));
    assert_eq!(snapshot(&dom), before);
    // The caller falls back on a marker that it holds.
    let mut marker = dom.create_placeholder();
    marker.mount(&mut dom, &root, None);
    unit.insert_before_this_or_marker(&mut dom, &root, &mut other, Some(&marker.0));
    assert_eq!(children(&dom, root.node_id()), vec![other.node.node_id(), marker.node_id()]);
}

#[test]
fn insert_before_this_puts_nodes_before_the_first_node() {
    let mut dom = Dom::new();
    let root = dom.create_root_element();
    let state = mount_to(&mut dom, root, ("b", "c"));
    let mut a = "a".build(&mut dom);
    assert!(state.insert_before_this(&mut dom, &mut a));
    assert_eq!(
        children(&dom, root.node_id()),
        vec![a.node.node_id(), state.0.node.node_id(), state.1.node.node_id()]
    );
    // A state that is not mounted has no place either.
    let loose = "loose".build(&mut dom);
    let mut d = "d".build(&mut dom);
    assert!(!loose.insert_before_this(&mut dom, &mut d));
    assert_eq!(dom.doc.parent(d.node.node_id()), None);
    // Nor has the child of the document root, which is no element.
    let mut top = "top".build(&mut dom);
    top.mount(&mut dom, &Element(Node(ROOT)), None);
    assert!(!top.insert_before_this(&mut dom, &mut d));
}

#[test]
fn tuples_mount_in_order_before_a_marker() {
    let mut dom = Dom::new();
    let root = dom.create_root_element();
    let mut marker = dom.create_placeholder();
    marker.mount(&mut dom, &root, None);
    let mut state = ("a", ("b", "c"), ()).build(&mut dom);
    state.mount(&mut dom, &root, Some(&marker.0));
    let ids = children(&dom, root.node_id());
    assert_eq!(ids.len(), 4);
    assert_eq!(text_of(&dom, ids[0]), "a");
    assert_eq!(text_of(&dom, ids[1]), "b");
    assert_eq!(text_of(&dom, ids[2]), "c");
    assert_eq!(ids[3], marker.node_id());
    state.unmount(&mut dom);
    assert_eq!(children(&dom, root.node_id()), vec![marker.node_id()]);
    // Unmounting again passes over what is gone.
    state.unmount(&mut dom);
    assert_eq!(children(&dom, root.node_id()), vec![marker.node_id()]);
}

#[test]
fn an_element_is_built_with_attributes_and_children() {
    let mut dom = Dom::new();
    let root = dom.create_root_element();
    let view = div()
        .add_any_attr(Attr(Id, "box"))
        .child(span().child("inner"))
        .child("tail");
    let state = mount_to(&mut dom, root, view);
    let el = state.el.node_id();
    assert_eq!(children(&dom, root.node_id()), vec![el]);
    assert_eq!(tag_of(&dom, el), "div");
    assert_eq!(attrs_of(&dom, el), vec![("id".to_string(), "box".to_string())]);
    let kids = children(&dom, el);
    assert_eq!(kids.len(), 2);
    assert_eq!(tag_of(&dom, kids[0]), "span");
    assert_eq!(text_of(&dom, children(&dom, kids[0])[0]), "inner");
    assert_eq!(text_of(&dom, kids[1]), "tail");
    assert!(state.children.is_some());
}

#[test]
fn a_self_closing_element_builds_no_children() {
    let mut dom = Dom::new();
    let state = br().build(&mut dom);
    assert!(state.children.is_none());
    assert_eq!(children(&dom, state.el.node_id()), Vec::<NodeId>::new());
    let field = input().add_any_attr(Attr(Id, "f")).build(&mut dom);
    assert_eq!(tag_of(&dom, field.el.node_id()), "input");
    assert!(field.children.is_none());
}

#[test]
fn style_parts_of_one_pass_are_joined() {
    let mut dom = Dom::new();
    let view = div().style("color:red").style("background:blue");
    let state = view.build(&mut dom);
    assert_eq!(
        attr(&dom, state.el.node_id(), "style"),
        Some("color:red;background:blue".to_string())
    );
    assert_eq!(state.style, "color:red;background:blue");
    assert_eq!(dom.doc.take_signals(), vec![StyleSignal::Restyle(state.el.node_id())]);
}

#[test]
fn class_parts_of_one_pass_are_joined() {
    let mut dom = Dom::new();
    let view = p()
        .add_any_attr(Attr(Class, "a"))
        .add_any_attr(Attr(Id, "x"))
        .add_any_attr(Attr(Class, String::from("b c")));
    let mut state = view.build(&mut dom);
    let el = state.el.node_id();
    assert_eq!(attr(&dom, el, "class"), Some("a b c".to_string()));
    assert_eq!(attr(&dom, el, "id"), Some("x".to_string()));
    // A rebuild gathers again and writes the joined text once.
    p().add_any_attr(Attr(Class, "a"))
        .add_any_attr(Attr(Id, "y"))
        .add_any_attr(Attr(Class, String::from("d")))
        .rebuild(&mut dom, &mut state);
    assert_eq!(attr(&dom, el, "class"), Some("a d".to_string()));
    assert_eq!(attr(&dom, el, "id"), Some("y".to_string()));
    // Where nothing is gathered any more the attribute leaves.
    p().add_any_attr(Attr(Class, ""))
        .add_any_attr(Attr(Id, "y"))
        .add_any_attr(Attr(Class, String::new()))
        .rebuild(&mut dom, &mut state);
    assert_eq!(attr(&dom, el, "class"), None);
}

#[test]
fn ordinary_attributes_keep_the_last_write() {
    let mut dom = Dom::new();
    let view = div().add_any_attr(Attr(Id, "first")).add_any_attr(Attr(Id, "second"));
    let state = view.build(&mut dom);
    assert_eq!(
        attrs_of(&dom, state.el.node_id()),
        vec![("id".to_string(), "second".to_string())]
    );
}

#[test]
fn handlers_of_a_view_are_attached_and_released() {
    let mut dom = Dom::new();
    let root = dom.create_root_element();
    let view = div().on(click, 1).child(span().on(input_event, 2).child("x"));
    let mut state = mount_to(&mut dom, root, view);
    assert_eq!(dom.events.len(), 2);
    let target = {
        let span_el = children(&dom, state.el.node_id())[0];
        children(&dom, span_el)[0]
    };
    assert_eq!(handle_event(&dom, target, "click"), vec![1]);
    assert_eq!(handle_event(&dom, target, "input"), vec![2]);
    state.unmount(&mut dom);
    assert_eq!(dom.events.len(), 0);
    assert!(!dom.doc.contains(state.el.node_id()));
    assert!(!dom.doc.contains(target));
    assert_eq!(children(&dom, root.node_id()), Vec::<NodeId>::new());
}

#[test]
fn view_wrapper_hands_its_view_back() {
    let view = "x".into_view();
    assert_eq!(view.into_inner(), "x");
    assert_eq!("y".into_render(), "y");
    let mut dom = Dom::new();
    let mut state = "x".into_view().build(&mut dom);
    "z".into_view().rebuild(&mut dom, &mut state);
    assert_eq!(text_of(&dom, state.node.node_id()), "z");
}

#[test]
fn builder_accessors() {
    let mut el: HtmlElement<_, _, _> = div().child("a");
    assert_eq!(el.children().0, "a");
    el.children_mut().0 = "b";
    assert_eq!(el.children().0, "b");
    let mut styled = div().style("x");
    assert_eq!(styled.attributes().0 .1, "x");
    styled.attributes_mut().0 .1 = "y";
    assert_eq!(styled.attributes().0 .1, "y");
    let _ = Style;
}

#[test]
fn parsed_markup_is_made_under_a_wrapper() {
    let mut dom = Dom::new();
    let tpl = dom.create_element_from_html("<p class=\"x\" id=\"i\">hi<b>!</b></p><!-- c -->tail");
    let el = tpl.node_id();
    assert_eq!(tag_of(&dom, el), "div");
    assert_eq!(dom.doc.parent(el), None);
    let kids = children(&dom, el);
    assert_eq!(kids.len(), 3);
    assert_eq!(tag_of(&dom, kids[0]), "p");
    assert_eq!(
        attrs_of(&dom, kids[0]),
        vec![("class".to_string(), "x".to_string()), ("id".to_string(), "i".to_string())]
    );
    let inner = children(&dom, kids[0]);
    assert_eq!(text_of(&dom, inner[0]), "hi");
    assert_eq!(tag_of(&dom, inner[1]), "b");
    assert_eq!(text_of(&dom, children(&dom, inner[1])[0]), "!");
    assert!(dom.doc.is_comment(kids[1]));
    assert_eq!(text_of(&dom, kids[2]), "tail");
}

#[test]
fn given_markup_is_made_without_the_frame_elements() {
    let mut dom = Dom::new();
    let nodes = vec![
        Markup::Other,
        Markup::Element {
            tag: "html".to_string(),
            attrs: vec![("lang".to_string(), "en".to_string())],
            children: vec![
                Markup::Element { tag: "head".to_string(), attrs: vec![], children: vec![] },
                Markup::Element {
                    tag: "body".to_string(),
                    attrs: vec![],
                    children: vec![
                        Markup::Text("a".to_string()),
                        Markup::Comment,
                        Markup::Element {
                            tag: "i".to_string(),
                            attrs: vec![
                                ("style".to_string(), "x".to_string()),
                                ("style".to_string(), "y".to_string()),
                            ],
                            children: vec![Markup::Text("b".to_string())],
                        },
                    ],
                },
            ],
        },
    ];
    let tpl = dom.create_element_from_markup(&nodes);
    let kids = children(&dom, tpl.node_id());
    assert_eq!(kids.len(), 3);
    assert_eq!(text_of(&dom, kids[0]), "a");
    assert!(dom.doc.is_comment(kids[1]));
    assert_eq!(tag_of(&dom, kids[2]), "i");
    assert_eq!(attrs_of(&dom, kids[2]), vec![("style".to_string(), "y".to_string())]);
    assert_eq!(text_of(&dom, children(&dom, kids[2])[0]), "b");
    assert_eq!(attrs_of(&dom, tpl.node_id()), vec![]);
}

#[test]
fn inert_markup_is_replaced_in_place() {
    let mut dom = Dom::new();
    let root = dom.create_root_element();
    let view = (InertElement::new(Cow::Borrowed("<p>one</p>")), "after");
    let mut state = mount_to(&mut dom, root, view);
    let first = state.0 .1.node_id();
    assert_eq!(children(&dom, root.node_id())[0], first);
    (InertElement::new(Cow::Borrowed("<p>one</p>")), "after").rebuild(&mut dom, &mut state);
    assert_eq!(state.0 .1.node_id(), first);
    (InertElement::new(Cow::Borrowed("<p>two</p><p>three</p>")), "after")
        .rebuild(&mut dom, &mut state);
    let second = state.0 .1.node_id();
    assert!(second != first);
    assert!(!dom.doc.contains(first));
    assert_eq!(children(&dom, root.node_id()), vec![second, state.1.node.node_id()]);
    assert_eq!(children(&dom, second).len(), 2);
    assert_eq!(state.0 .0, "<p>two</p><p>three</p>");
}
