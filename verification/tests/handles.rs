use leptos_blitz::arena::{Arena, NodeData, StyleSignal, ROOT};
use leptos_blitz::attribute::{gather, join, Accumulator};
use leptos_blitz::dom::{set_input_checked_state, Comment, Document, Element, Node, Text, Window};
use leptos_blitz::element::flush;
use leptos_blitz::primitives::{format_bool, format_char, format_int};
use leptos_blitz::renderer::Dom;
use leptos_blitz::strings::{text_len, text_to_html};
use leptos_blitz::view::{buffer_for, insert_before_node, show_text, unmount_node, Position};

#[test]
fn handles_are_made_from_indices() {
    assert_eq!(Node::from(3), Node(3));
    assert_eq!(Element::from(4), Element(Node(4)));
    assert_eq!(Text::from(5), Text(Node(5)));
    assert_eq!(Comment::from(6), Comment(Node(6)));
    assert_eq!(Document::from(0), Document(Node(0)));
    assert_eq!(Element::from(4).node_id(), 4);
    assert_eq!(Text::from(5).node_id(), 5);
    assert_eq!(Comment::from(6).node_id(), 6);
    // A typed handle is used as the node that it names.
    let element = Element::from(7);
    let node: &Node = &element;
    assert_eq!(*node, Node(7));
    assert_eq!(Text::from(8).parent_node(&Arena::new()), None);
}

#[test]
fn window_shows_its_document() {
    let window = Window::new(Document::from(ROOT));
    assert_eq!(*window.document(), Document(Node(ROOT)));
    let mut doc = Arena::new();
    let comment = window.document().create_comment(&mut doc, "not kept");
    assert!(doc.is_comment(comment.node_id()));
    assert!(matches!(doc.get_node(comment.node_id()).unwrap().data, NodeData::Comment));
}

#[test]
fn checked_state_is_written_directly() {
    let mut doc = Arena::new();
    let input = Document(Node(ROOT)).create_element_ns(&mut doc, None, "input");
    set_input_checked_state(&mut doc, input, "true");
    match &doc.get_node(input.node_id()).unwrap().data {
        NodeData::Element(e) => {
            assert_eq!(e.attrs.len(), 1);
            assert_eq!(e.attrs[0].name, "checked");
            assert_eq!(e.attrs[0].value, "true");
        },
        _ => panic!("no element"),
    }
    set_input_checked_state(&mut doc, input, "TRUE");
    match &doc.get_node(input.node_id()).unwrap().data {
        NodeData::Element(e) => assert_eq!(e.attrs[0].value, "true"),
        _ => panic!("no element"),
    }
}

#[test]
fn signals_are_taken_in_order() {
    let mut doc = Arena::new();
    doc.signal(StyleSignal::Restyle(3));
    doc.signal(StyleSignal::Stylesheet(1));
    assert_eq!(doc.take_signals(), vec![StyleSignal::Restyle(3), StyleSignal::Stylesheet(1)]);
    assert_eq!(doc.take_signals(), vec![]);
}

#[test]
fn showing_text_passes_over_what_is_gone() {
    let mut dom = Dom::new();
    let text = dom.create_text_node("a");
    show_text(&mut dom, &text, "b");
    match &dom.doc.get_node(text.node_id()).unwrap().data {
        NodeData::Text(t) => assert_eq!(t, "b"),
        _ => panic!("no text"),
    }
    unmount_node(&mut dom, text.node_id());
    assert!(!dom.doc.contains(text.node_id()));
    show_text(&mut dom, &text, "c");
    unmount_node(&mut dom, text.node_id());
    assert!(!dom.doc.contains(text.node_id()));
}

#[test]
fn insert_before_a_node_needs_an_element_parent() {
    let mut dom = Dom::new();
    let root = dom.create_root_element();
    let here = dom.create_text_node("here");
    dom.insert_node(&root, &here.0, None);
    let mut other = dom.create_text_node("other");
    assert!(insert_before_node(&mut dom, here.node_id(), &mut other));
    assert_eq!(dom.first_child(&root.0), Some(other.0));
    let mut third = dom.create_text_node("third");
    assert!(!insert_before_node(&mut dom, root.node_id(), &mut third));
    assert!(!insert_before_node(&mut dom, 777, &mut third));
    assert_eq!(dom.get_parent(&third.0), None);
}

#[test]
fn flush_writes_only_what_changed() {
    let mut dom = Dom::new();
    let el = dom.create_element("div", None);
    let mut shown = String::new();
    flush(&mut dom, &el, "class", "", &mut shown);
    assert_eq!(dom.doc.take_signals(), vec![]);
    flush(&mut dom, &el, "style", "a:b", &mut shown);
    assert_eq!(shown, "a:b");
    assert_eq!(dom.doc.take_signals(), vec![StyleSignal::Restyle(el.node_id())]);
    flush(&mut dom, &el, "style", "a:b", &mut shown);
    assert_eq!(dom.doc.take_signals(), vec![]);
    flush(&mut dom, &el, "style", "", &mut shown);
    assert_eq!(shown, "");
    match &dom.doc.get_node(el.node_id()).unwrap().data {
        NodeData::Element(e) => assert_eq!(e.attrs.len(), 0),
        _ => panic!("no element"),
    }
}

#[test]
fn parts_are_joined_behind_separators() {
    let mut acc = String::new();
    join(&mut acc, " ", "");
    assert_eq!(acc, "");
    join(&mut acc, " ", "a");
    assert_eq!(acc, "a");
    join(&mut acc, " ", "");
    assert_eq!(acc, "a");
    join(&mut acc, ";", "b");
    assert_eq!(acc, "a;b");
    let mut gathered = Accumulator::new();
    assert!(gather("class", "x", &mut gathered));
    assert!(gather("style", "y", &mut gathered));
    assert!(gather("class", "z", &mut gathered));
    assert!(!gather("id", "q", &mut gathered));
    assert_eq!(gathered.class, "x z");
    assert_eq!(gathered.style, "y");
}

#[test]
fn scalars_are_formatted() {
    assert_eq!(format_int(0), "0");
    assert_eq!(format_int(-1), "-1");
    assert_eq!(format_int(i64::MIN), "-9223372036854775808");
    assert_eq!(format_bool(true), "true");
    assert_eq!(format_bool(false), "false");
    assert_eq!(format_char('x'), "x");
    assert_eq!(text_len("äb"), 3);
    assert_eq!(buffer_for(usize::MAX), "");
    let mut buf = String::new();
    let mut position = Position::default();
    assert_eq!(position, Position::FirstChild);
    text_to_html("&", &mut buf, &mut position, true);
    assert_eq!(buf, "&amp;");
    assert_eq!(position, Position::NextChildAfterText);
}
