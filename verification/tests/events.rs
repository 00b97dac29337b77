use leptos_blitz::arena::{NodeData, NodeId, ROOT};
use leptos_blitz::attribute::{Accumulator, Attribute};
use leptos_blitz::dom::{Element, Node};
use leptos_blitz::event::{
    blur, click, handle_event, handler_attribute, lookup_handler, on, EventDescriptor,
    RemoveEventHandler,
};
use leptos_blitz::handle::{format_handle, parse_handle};
use leptos_blitz::registry::{Event, EventRegistry};
use leptos_blitz::renderer::Dom;

fn attr(dom: &Dom, id: NodeId, name: &str) -> Option<String> {
    match &dom.doc.get_node(id).unwrap().data {
        NodeData::Element(e) => e.attrs.iter().find(|a| a.name == name).map(|a| a.value.clone()),
        _ => None,
    }
}

#[test]
fn handles_are_written_in_decimal() {
    assert_eq!(format_handle(0), "0");
    assert_eq!(format_handle(7), "7");
    assert_eq!(format_handle(10), "10");
    assert_eq!(format_handle(4294967297), "4294967297");
    assert_eq!(format_handle(u64::MAX), "18446744073709551615");
}

#[test]
fn handles_are_read_from_decimal() {
    assert_eq!(parse_handle("0"), Some(0));
    assert_eq!(parse_handle("7"), Some(7));
    assert_eq!(parse_handle("007"), Some(7));
    assert_eq!(parse_handle("+7"), Some(7));
    assert_eq!(parse_handle("18446744073709551615"), Some(u64::MAX));
    assert_eq!(parse_handle("18446744073709551616"), None);
    assert_eq!(parse_handle("99999999999999999999999"), None);
    assert_eq!(parse_handle(""), None);
    assert_eq!(parse_handle("+"), None);
    assert_eq!(parse_handle("-1"), None);
    assert_eq!(parse_handle("++1"), None);
    assert_eq!(parse_handle("1+"), None);
    assert_eq!(parse_handle("12a"), None);
    assert_eq!(parse_handle(" 1"), None);
    assert_eq!(parse_handle("1 "), None);
    assert_eq!(parse_handle("\u{661}"), None);
    assert_eq!(parse_handle("1_000"), None);
}

#[test]
fn written_handles_read_back() {
    for h in [0u64, 1, 9, 10, 99, 100, 4294967296, 4294967297, u64::MAX - 1, u64::MAX] {
        assert_eq!(parse_handle(&format_handle(h)), Some(h));
        assert_eq!(format_handle(h).parse::<u64>(), Ok(h));
    }
}

#[test]
fn registry_registers_and_forgets() {
    let mut events = EventRegistry::new();
    assert_eq!(events.len(), 0);
    let a = Event::insert(&mut events, 11);
    let b = Event::insert(&mut events, 22);
    assert!(a != b);
    assert_eq!(events.len(), 2);
    assert_eq!(Event::call_mut(&events, a), Some(11));
    assert_eq!(Event::call_mut(&events, b), Some(22));
    Event::remove(&mut events, a);
    assert_eq!(events.len(), 1);
    // A handle that was removed reaches nothing, and dispatching it again
    // is no error.
    assert_eq!(Event::call_mut(&events, a), None);
    assert_eq!(Event::call_mut(&events, a), None);
    Event::remove(&mut events, a);
    assert_eq!(events.len(), 1);
    assert_eq!(Event::call_mut(&events, b), Some(22));
    assert_eq!(Event::call_mut(&events, 12345), None);
    let c = Event::try_insert(&mut events, 33);
    assert!(c.is_some());
    assert_eq!(Event::call_mut(&events, c.unwrap()), Some(33));
}

#[test]
fn a_handle_is_read_as_a_key_with_an_odd_version() {
    let mut events = EventRegistry::new();
    let a = Event::insert(&mut events, 5);
    // The version is the upper half of the handle, and its lowest bit is
    // set when the handle is read.
    assert_eq!(a & 0x1_0000_0000, 0x1_0000_0000);
    assert_eq!(Event::call_mut(&events, a & !0x1_0000_0000), Some(5));
}

#[test]
fn remove_event_handler_carries_the_handle() {
    let remove = RemoveEventHandler::new(9);
    assert_eq!(remove.into_inner(), 9);
}

#[test]
fn event_names() {
    assert_eq!(click.name(), "click");
    assert_eq!(click.html_name(), "onclick");
    assert_eq!(click.event_delegation_key(), "$$$click");
    assert_eq!(blur.html_name(), "onblur");
    assert!(click::BUBBLES);
    assert!(!blur::BUBBLES);
    assert_eq!(handler_attribute("click"), "onclick");
    assert_eq!(handler_attribute(""), "on");
}

#[test]
fn click_on_a_text_reaches_the_handler_of_its_element() {
    let mut dom = Dom::new();
    let div = dom.create_element("div", None);
    dom.insert_node(&Element(Node(ROOT)), &div.0, None);
    let hi = dom.create_text_node("hi");
    dom.insert_node(&div, &hi.0, None);
    let handle = Event::insert(&mut dom.events, 7);
    dom.set_attribute(&div, "onclick", &handle.to_string());
    assert_eq!(handle_event(&dom, hi.node_id(), "click"), vec![7]);
    assert_eq!(handle_event(&dom, div.node_id(), "click"), vec![7]);
    assert_eq!(handle_event(&dom, ROOT, "click"), Vec::<u64>::new());
    assert_eq!(handle_event(&dom, hi.node_id(), "input"), Vec::<u64>::new());
    assert_eq!(lookup_handler(&dom, div.node_id(), "onclick"), Some(7));
    assert_eq!(lookup_handler(&dom, hi.node_id(), "onclick"), None);
}

#[test]
fn delivery_is_in_capture_order() {
    let mut dom = Dom::new();
    let a = dom.create_element("a", None);
    let b = dom.create_element("b", None);
    let c = dom.create_element("c", None);
    dom.insert_node(&Element(Node(ROOT)), &a.0, None);
    dom.insert_node(&a, &b.0, None);
    dom.insert_node(&b, &c.0, None);
    // The handler of the target is attached first: the order of delivery
    // does not follow the order of registration.
    assert!(on(click, 30).attach(&mut dom, &c).is_some());
    assert!(on(click, 10).attach(&mut dom, &a).is_some());
    assert_eq!(handle_event(&dom, c.node_id(), "click"), vec![10, 30]);
    assert_eq!(handle_event(&dom, b.node_id(), "click"), vec![10]);
    assert!(on(click, 20).attach(&mut dom, &b).is_some());
    assert_eq!(handle_event(&dom, c.node_id(), "click"), vec![10, 20, 30]);
}

#[test]
fn a_second_handler_supersedes_the_first() {
    let mut dom = Dom::new();
    let el = dom.create_element("button", None);
    dom.insert_node(&Element(Node(ROOT)), &el.0, None);
    let first = on(click, 1).attach(&mut dom, &el).unwrap();
    assert_eq!(handle_event(&dom, el.node_id(), "click"), vec![1]);
    let second = on(click, 2).attach(&mut dom, &el).unwrap();
    assert!(first != second);
    assert_eq!(handle_event(&dom, el.node_id(), "click"), vec![2]);
    assert_eq!(
        attr(&dom, el.node_id(), "onclick"),
        Some(second.into_inner().to_string())
    );
}

#[test]
fn unknown_and_malformed_handles_are_passed_over() {
    let mut dom = Dom::new();
    let outer = dom.create_element("div", None);
    let inner = dom.create_element("div", None);
    dom.insert_node(&Element(Node(ROOT)), &outer.0, None);
    dom.insert_node(&outer, &inner.0, None);
    let cleanup = on(click, 5).attach(&mut dom, &outer).unwrap();
    dom.set_attribute(&inner, "onclick", "not a handle");
    assert_eq!(handle_event(&dom, inner.node_id(), "click"), vec![5]);
    dom.set_attribute(&inner, "onclick", "987654321");
    assert_eq!(handle_event(&dom, inner.node_id(), "click"), vec![5]);
    Event::remove(&mut dom.events, cleanup.into_inner());
    assert_eq!(handle_event(&dom, inner.node_id(), "click"), Vec::<u64>::new());
    // A target that is gone has no way up.
    dom.remove(&outer);
    assert_eq!(handle_event(&dom, inner.node_id(), "click"), Vec::<u64>::new());
}

#[test]
fn rebuild_replaces_the_handle_only_for_another_callback() {
    let mut dom = Dom::new();
    let el = dom.create_element("button", None);
    let mut acc = Accumulator::new();
    let mut state = on(click, 1).build(&mut dom, &el, &mut acc);
    let first = state.cleanup.unwrap().into_inner();
    let text = attr(&dom, el.node_id(), "onclick");
    on(click, 1).rebuild(&mut dom, &mut state, &mut acc);
    assert_eq!(state.cleanup.unwrap().into_inner(), first);
    assert_eq!(attr(&dom, el.node_id(), "onclick"), text);
    assert_eq!(dom.events.len(), 1);
    on(click, 2).rebuild(&mut dom, &mut state, &mut acc);
    // The old handle left the table before the new one came.
    assert_eq!(dom.events.len(), 1);
    assert_eq!(Event::call_mut(&dom.events, first), None);
    assert_eq!(handle_event(&dom, el.node_id(), "click"), vec![2]);
    assert_eq!(acc.class, "");
    assert_eq!(acc.style, "");
}
