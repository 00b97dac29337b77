use leptos_blitz::arena::{Arena, NodeData, NodeId, StyleSignal, Widget, ROOT};
use leptos_blitz::dom::{Document, Element, Node, Text};
use leptos_blitz::renderer::{CastFrom, Dom};
use leptos_blitz::store::BlitzDocument;

fn element(doc: &mut Arena, tag: &str) -> Element {
    Document(Node(ROOT)).create_element_ns(doc, None, tag)
}

fn text(doc: &mut Arena, content: &str) -> Text {
    Document(Node(ROOT)).create_text_node(doc, content)
}

fn children(doc: &Arena, id: NodeId) -> Vec<NodeId> {
    doc.get_node(id).unwrap().children.clone()
}

fn attr(doc: &Arena, id: NodeId, name: &str) -> Option<String> {
    match &doc.get_node(id).unwrap().data {
        NodeData::Element(e) => e.attrs.iter().find(|a| a.name == name).map(|a| a.value.clone()),
        _ => None,
    }
}

/// Every live node that names a parent stands exactly once in the child
/// list of that parent, and every entry of a child list points back.
fn assert_forest(doc: &Arena, handles: &[NodeId]) {
    for &id in handles {
        if let Some(node) = doc.get_node(id) {
            if let Some(parent) = node.parent {
                let list = children(doc, parent);
                assert_eq!(list.iter().filter(|c| **c == id).count(), 1);
            }
            for &child in &node.children {
                assert_eq!(doc.parent(child), Some(id));
            }
        }
    }
}

#[test]
fn new_arena_holds_the_root_alone() {
    let doc = Arena::new();
    assert!(doc.contains(ROOT));
    assert_eq!(doc.root_node(), ROOT);
    assert_eq!(doc.parent(ROOT), None);
    assert_eq!(doc.first_child(ROOT), None);
    assert!(!doc.contains(1));
}

#[test]
fn created_nodes_are_fresh_and_detached() {
    let mut doc = Arena::new();
    let a = element(&mut doc, "div").node_id();
    let b = text(&mut doc, "hi").node_id();
    assert!(a != ROOT && b != ROOT && a != b);
    assert_eq!(doc.parent(a), None);
    assert_eq!(doc.parent(b), None);
    assert!(doc.is_element(a));
    assert!(doc.is_text(b));
    assert!(!doc.is_comment(b));
}

#[test]
fn insert_appends_without_reference() {
    let mut doc = Arena::new();
    let a = element(&mut doc, "a").node_id();
    let b = element(&mut doc, "b").node_id();
    doc.insert_before(ROOT, &[a], None);
    doc.insert_before(ROOT, &[b], None);
    assert_eq!(children(&doc, ROOT), vec![a, b]);
    assert_eq!(doc.parent(a), Some(ROOT));
    assert_eq!(doc.parent(b), Some(ROOT));
}

#[test]
fn insert_splices_before_reference() {
    let mut doc = Arena::new();
    let a = element(&mut doc, "a").node_id();
    let b = element(&mut doc, "b").node_id();
    let c = element(&mut doc, "c").node_id();
    let d = element(&mut doc, "d").node_id();
    doc.insert_before(ROOT, &[a, b], None);
    // The parent argument is not used where a reference is given.
    doc.insert_before(a, &[c, d], Some(b));
    assert_eq!(children(&doc, ROOT), vec![a, c, d, b]);
    assert_eq!(doc.parent(c), Some(ROOT));
    assert_eq!(doc.parent(d), Some(ROOT));
    assert_eq!(doc.child_index(b), 3);
    assert_forest(&doc, &[ROOT, a, b, c, d]);
}

#[test]
fn forest_invariant_after_a_sequence_of_operations() {
    let mut doc = Arena::new();
    let mut handles = vec![ROOT];
    let a = element(&mut doc, "a").node_id();
    let b = element(&mut doc, "b").node_id();
    let c = text(&mut doc, "c").node_id();
    let d = element(&mut doc, "d").node_id();
    handles.extend([a, b, c, d]);
    doc.insert_before(ROOT, &[a], None);
    assert_forest(&doc, &handles);
    doc.insert_before(a, &[b, c], None);
    assert_forest(&doc, &handles);
    doc.insert_before(ROOT, &[d], Some(a));
    assert_forest(&doc, &handles);
    doc.remove_node(b);
    assert_forest(&doc, &handles);
    let e = element(&mut doc, "e").node_id();
    handles.push(e);
    doc.insert_before(d, &[e], None);
    assert_forest(&doc, &handles);
    doc.remove_node(a);
    assert_forest(&doc, &handles);
    assert_eq!(children(&doc, ROOT), vec![d]);
    assert_eq!(children(&doc, d), vec![e]);
}

#[test]
fn remove_detaches_the_whole_subtree() {
    let mut doc = Arena::new();
    let parent = element(&mut doc, "div").node_id();
    let first = text(&mut doc, "one").node_id();
    let second = element(&mut doc, "span").node_id();
    let inner = text(&mut doc, "two").node_id();
    doc.insert_before(ROOT, &[parent], None);
    doc.insert_before(parent, &[first, second], None);
    doc.insert_before(second, &[inner], None);
    let removed = doc.remove_node(parent);
    assert_eq!(removed, parent);
    assert_eq!(doc.parent(first), None);
    assert_eq!(doc.parent(second), None);
    assert_eq!(doc.parent(inner), None);
    assert!(!doc.contains(parent));
    assert!(!doc.contains(first));
    assert!(!doc.contains(second));
    assert!(!doc.contains(inner));
    assert_eq!(children(&doc, ROOT), Vec::<NodeId>::new());
    assert_eq!(doc.first_child(parent), None);
    assert_eq!(doc.next_sibling(first), None);
}

#[test]
fn removed_handles_are_reserved_until_released() {
    let mut doc = Arena::new();
    let a = element(&mut doc, "a").node_id();
    let b = element(&mut doc, "b").node_id();
    doc.remove_node(a);
    doc.remove_node(b);
    let c = element(&mut doc, "c").node_id();
    assert!(c != a && c != b);
    doc.release();
    let d = element(&mut doc, "d").node_id();
    let e = element(&mut doc, "e").node_id();
    let f = element(&mut doc, "f").node_id();
    let mut reused = vec![d, e];
    reused.sort();
    let mut freed = vec![a, b];
    freed.sort();
    assert_eq!(reused, freed);
    assert!(f != a && f != b && f != c);
    assert!(doc.contains(c));
}

#[test]
fn traversal_helpers_signal_absence() {
    let mut doc = Arena::new();
    let a = element(&mut doc, "a").node_id();
    let b = element(&mut doc, "b").node_id();
    doc.insert_before(ROOT, &[a, b], None);
    assert_eq!(doc.first_child(ROOT), Some(a));
    assert_eq!(doc.next_sibling(a), Some(b));
    assert_eq!(doc.next_sibling(b), None);
    assert_eq!(doc.next_sibling(ROOT), None);
    assert_eq!(doc.first_child(a), None);
    assert_eq!(doc.parent(999), None);
    assert_eq!(doc.first_child(999), None);
    assert_eq!(doc.next_sibling(999), None);
    assert_eq!(Node(a).parent_node(&doc), Some(Node(ROOT)));
    assert_eq!(Node(a).next_sibling(&doc), Some(Node(b)));
    assert_eq!(Node(ROOT).first_child(&doc), Some(Node(a)));
}

#[test]
fn is_ancestor_walks_up() {
    let mut doc = Arena::new();
    let a = element(&mut doc, "a").node_id();
    let b = element(&mut doc, "b").node_id();
    let c = element(&mut doc, "c").node_id();
    doc.insert_before(ROOT, &[a], None);
    doc.insert_before(a, &[b], None);
    assert!(doc.is_ancestor(ROOT, b));
    assert!(doc.is_ancestor(a, b));
    assert!(doc.is_ancestor(b, b));
    assert!(!doc.is_ancestor(b, a));
    assert!(!doc.is_ancestor(a, c));
}

#[test]
fn set_attribute_creates_and_overwrites() {
    let mut doc = Arena::new();
    let el = element(&mut doc, "div");
    el.set_attribute(&mut doc, "id", "one");
    el.set_attribute(&mut doc, "title", "t");
    el.set_attribute(&mut doc, "id", "two");
    assert_eq!(attr(&doc, el.node_id(), "id"), Some("two".to_string()));
    assert_eq!(attr(&doc, el.node_id(), "title"), Some("t".to_string()));
    match &doc.get_node(el.node_id()).unwrap().data {
        NodeData::Element(e) => assert_eq!(e.attrs.len(), 2),
        _ => panic!("no element"),
    }
    el.remove_attribute(&mut doc, "id");
    assert_eq!(attr(&doc, el.node_id(), "id"), None);
    el.remove_attribute(&mut doc, "absent");
    assert_eq!(attr(&doc, el.node_id(), "title"), Some("t".to_string()));
}

#[test]
fn style_attribute_signals_a_restyle() {
    let mut doc = Arena::new();
    let el = element(&mut doc, "div");
    el.set_attribute(&mut doc, "id", "x");
    assert_eq!(doc.take_signals(), vec![]);
    el.set_attribute(&mut doc, "style", "color:red");
    assert_eq!(doc.take_signals(), vec![StyleSignal::Restyle(el.node_id())]);
    assert_eq!(doc.take_signals(), vec![]);
    el.remove_attribute(&mut doc, "style");
    assert_eq!(doc.take_signals(), vec![StyleSignal::Restyle(el.node_id())]);
}

#[test]
fn checked_on_a_checkbox_sets_the_widget_state() {
    let mut doc = Arena::new();
    let input = element(&mut doc, "input");
    doc.set_widget(input.node_id(), Widget::Checkbox(false));
    input.set_attribute(&mut doc, "checked", "true");
    match &doc.get_node(input.node_id()).unwrap().data {
        NodeData::Element(e) => {
            assert!(matches!(e.widget, Widget::Checkbox(true)));
            assert_eq!(e.attrs.len(), 0);
        },
        _ => panic!("no element"),
    }
    // A value that is no truth value is dropped.
    input.set_attribute(&mut doc, "checked", "yes");
    match &doc.get_node(input.node_id()).unwrap().data {
        NodeData::Element(e) => assert!(matches!(e.widget, Widget::Checkbox(true))),
        _ => panic!("no element"),
    }
    input.set_attribute(&mut doc, "checked", "false");
    match &doc.get_node(input.node_id()).unwrap().data {
        NodeData::Element(e) => assert!(matches!(e.widget, Widget::Checkbox(false))),
        _ => panic!("no element"),
    }
    // Removal leaves the widget state alone.
    input.remove_attribute(&mut doc, "checked");
    match &doc.get_node(input.node_id()).unwrap().data {
        NodeData::Element(e) => assert!(matches!(e.widget, Widget::Checkbox(false))),
        _ => panic!("no element"),
    }
}

#[test]
fn checked_without_widget_state_is_kept_as_attribute() {
    let mut doc = Arena::new();
    let input = element(&mut doc, "input");
    input.set_attribute(&mut doc, "checked", "true");
    assert_eq!(attr(&doc, input.node_id(), "checked"), Some("true".to_string()));
    input.set_attribute(&mut doc, "checked", "false");
    assert_eq!(attr(&doc, input.node_id(), "checked"), Some("false".to_string()));
    input.set_attribute(&mut doc, "checked", "maybe");
    assert_eq!(attr(&doc, input.node_id(), "checked"), Some("false".to_string()));
    // On another element `checked` is an ordinary attribute.
    let div = element(&mut doc, "div");
    div.set_attribute(&mut doc, "checked", "maybe");
    assert_eq!(attr(&doc, div.node_id(), "checked"), Some("maybe".to_string()));
}

#[test]
fn value_on_a_text_input_sets_the_buffer_and_the_attribute() {
    let mut doc = Arena::new();
    let input = element(&mut doc, "input");
    doc.set_widget(input.node_id(), Widget::TextInput(String::new()));
    input.set_attribute(&mut doc, "value", "abc");
    match &doc.get_node(input.node_id()).unwrap().data {
        NodeData::Element(e) => {
            assert!(matches!(&e.widget, Widget::TextInput(t) if t == "abc"));
        },
        _ => panic!("no element"),
    }
    assert_eq!(attr(&doc, input.node_id(), "value"), Some("abc".to_string()));
    input.remove_attribute(&mut doc, "value");
    match &doc.get_node(input.node_id()).unwrap().data {
        NodeData::Element(e) => {
            assert!(matches!(&e.widget, Widget::TextInput(t) if t.is_empty()));
        },
        _ => panic!("no element"),
    }
    assert_eq!(attr(&doc, input.node_id(), "value"), None);
}

#[test]
fn set_text_writes_only_on_change() {
    let mut doc = Arena::new();
    let style = element(&mut doc, "style");
    let css = text(&mut doc, "a{}");
    doc.insert_before(style.node_id(), &[css.node_id()], None);
    css.0.set_text_content(&mut doc, "a{}");
    assert_eq!(doc.take_signals(), vec![]);
    css.0.set_text_content(&mut doc, "b{}");
    assert_eq!(doc.take_signals(), vec![StyleSignal::Stylesheet(style.node_id())]);
    match &doc.get_node(css.node_id()).unwrap().data {
        NodeData::Text(t) => assert_eq!(t, "b{}"),
        _ => panic!("no text"),
    }
    // Text outside a style element raises no signal, and an element has no
    // text content to set.
    let plain = text(&mut doc, "x");
    plain.0.set_text_content(&mut doc, "y");
    style.0.set_text_content(&mut doc, "ignored");
    assert_eq!(doc.take_signals(), vec![]);
}

#[test]
fn casts_tell_the_kinds_apart() {
    let mut dom = Dom::new();
    let el = dom.create_element("div", None);
    let tx = dom.create_text_node("t");
    let ph = dom.create_placeholder();
    assert_eq!(Element::cast_from(&dom.doc, el.0), Some(el));
    assert_eq!(Element::cast_from(&dom.doc, tx.0), None);
    assert_eq!(Text::cast_from(&dom.doc, tx.0), Some(tx));
    assert_eq!(Text::cast_from(&dom.doc, ph.0), None);
    assert_eq!(leptos_blitz::dom::Comment::cast_from(&dom.doc, ph.0), Some(ph));
    assert_eq!(Element::cast_from(&dom.doc, Node(ROOT)), None);
    assert_eq!(Element::cast_from(&dom.doc, Node(4242)), None);
    assert_eq!(Dom::intern("same"), "same");
}

#[test]
fn namespace_is_kept() {
    let mut dom = Dom::new();
    let el = dom.create_element("svg", Some("http://www.w3.org/2000/svg"));
    match &dom.doc.get_node(el.node_id()).unwrap().data {
        NodeData::Element(e) => {
            assert_eq!(e.tag, "svg");
            assert_eq!(e.namespace.as_deref(), Some("http://www.w3.org/2000/svg"));
        },
        _ => panic!("no element"),
    }
}

#[test]
fn clear_children_removes_all_of_them() {
    let mut dom = Dom::new();
    let parent = dom.create_element("ul", None);
    let a = dom.create_element("li", None);
    let b = dom.create_element("li", None);
    let inner = dom.create_text_node("x");
    dom.insert_node(&Element(Node(ROOT)), &parent.0, None);
    dom.insert_node(&parent, &a.0, None);
    dom.insert_node(&parent, &b.0, None);
    dom.insert_node(&a, &inner.0, None);
    dom.clear_children(&parent);
    assert!(dom.doc.contains(parent.node_id()));
    assert_eq!(dom.first_child(&parent.0), None);
    assert!(!dom.doc.contains(a.node_id()));
    assert!(!dom.doc.contains(b.node_id()));
    assert!(!dom.doc.contains(inner.node_id()));
    assert_eq!(dom.get_parent(&parent.0), Some(Node(ROOT)));
}

#[test]
fn dom_remove_variants() {
    let mut dom = Dom::new();
    let root = dom.create_root_element();
    let a = dom.create_element("a", None);
    let b = dom.create_text_node("b");
    let c = dom.create_element("c", None);
    dom.insert_node(&root, &a.0, None);
    dom.insert_node(&root, &b.0, None);
    dom.insert_node(&root, &c.0, None);
    assert_eq!(dom.next_sibling(&a.0), Some(b.0));
    assert_eq!(dom.remove_node(&root, &a.0), Some(a.0));
    dom.remove_self(&b.0);
    dom.remove(&c);
    assert_eq!(dom.first_child(&root.0), None);
    assert_eq!(dom.get_parent(&root.0), Some(Node(ROOT)));
}

#[test]
fn store_hands_the_document_out_and_back() {
    let mut store = BlitzDocument::new();
    assert!(!store.has_document());
    store.set_document(Arena::new());
    assert!(store.has_document());
    let id = {
        let doc = store.document_mut();
        element(doc, "div").node_id()
    };
    assert!(store.document().contains(id));
    let doc = store.document_take();
    assert!(doc.contains(id));
    assert!(!store.has_document());
}
