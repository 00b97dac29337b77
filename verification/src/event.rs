//! Events: how a callback is attached to an element, and how a native event
//! finds the callbacks that it is for.
//!
//! Attaching a callback registers it in the handler table and writes the
//! handle, as text, into the attribute `on` + event name of the element. A
//! native event names its target node and its kind. It is delivered along
//! the way from the root of the document down to the target: each element on
//! that way whose attribute for the event holds a known handle has its
//! callback invoked, ancestors first.
use crate::arena::{
    ancestor_in, attr_value, attrs_of, find_attr, forest, ranked, with_attr, Arena, DataView,
    NodeData, NodeId, NodeView,
};
use crate::attribute::{
    same_shape, touches, write_attribute, Accumulator, Attribute, NextAttribute, Release, Shareable,
};
use crate::dom::{attribute_signals, attribute_written, Element};
use crate::handle::{decimal, format_handle, lemma_round_trip, parse_decimal, parse_handle};
use crate::registry::{entry_at, Callback, Event, EventRegistry, MAX_HANDLERS};
use crate::renderer::Dom;
use std::borrow::Cow;
use vstd::prelude::*;
use vstd::string::*;

verus! {

/// The kind of an event: its name, and whether it bubbles.
pub trait EventDescriptor: Clone {
    /// What a callback for this event receives.
    type EventType;

    /// Whether the event bubbles. `click` does; `focus` does not.
    const BUBBLES: bool;

    /// The characters of the name of the event.
    spec fn event_name(&self) -> Seq<char>;

    /// The name of the event, such as `click`.
    fn name(&self) -> (name: Cow<'static, str>)
        ensures
            name@ == self.event_name(),
    ;

    /// The name of the attribute that holds the handler, such as `onclick`.
    fn html_name(&self) -> (name: Cow<'static, str>)
        ensures
            name@ == "on"@ + self.event_name(),
    ;

    /// The key under which the event is delegated, such as `$$$click`.
    fn event_delegation_key(&self) -> (key: Cow<'static, str>)
        ensures
            key@ == "$$$"@ + self.event_name(),
    ;
}

/// The characters that `text` holds or borrows.
fn cow_text<'a>(text: &'a Cow<'static, str>) -> (r: &'a str)
    ensures
        r@ == text@,
{
    match text {
        Cow::Borrowed(b) => b,
        Cow::Owned(o) => o.as_str(),
    }
}

/// The name of the attribute that holds the handler of the event `name`.
pub fn handler_attribute(name: &str) -> (attr: String)
    ensures
        attr@ == "on"@ + name@,
{
    let mut attr = String::from_str("on");
    attr.append(name);
    attr
}

/// What undoes an attachment: the handle that the attachment registered.
#[derive(Clone, Copy, Debug, PartialEq, Eq, Structural)]
pub struct RemoveEventHandler(pub u64);

impl RemoveEventHandler {
    /// The undoing of the registration of `handle`.
    pub fn new(handle: u64) -> (remove: RemoveEventHandler)
        ensures
            remove.0 == handle,
    {
        RemoveEventHandler(handle)
    }

    /// The handle to remove.
    pub fn into_inner(self) -> (handle: u64)
        ensures
            handle == self.0,
    {
        self.0
    }
}

/// The callback that an event reaches at the node `id` through the attribute
/// `attr`: that of the handle that the attribute holds, where `id` is a live
/// element, the attribute reads as a handle, and the handle is known.
pub open spec fn handler_at(
    m: Map<NodeId, NodeView>,
    events: Map<u64, Callback>,
    id: NodeId,
    attr: Seq<char>,
) -> Option<Callback> {
    if m.contains_key(id) && m[id].data is Element {
        match attr_value(attrs_of(m[id].data), attr) {
            Some(text) => match parse_decimal(text) {
                Some(handle) => entry_at(events, handle),
                None => None,
            },
            None => None,
        }
    } else {
        None
    }
}

/// The callbacks that an event at `id` reaches through the attribute `attr`,
/// in the order of their invocation: those of the ancestors of `id`, from
/// the root down, and then that of `id` itself.
pub open spec fn deliveries(
    m: Map<NodeId, NodeView>,
    depth: Map<NodeId, nat>,
    events: Map<u64, Callback>,
    id: NodeId,
    attr: Seq<char>,
) -> Seq<Callback>
    decreases depth[id],
{
    (if m.contains_key(id) && (m[id].parent matches Some(p) && depth[p] < depth[id]) {
        deliveries(m, depth, events, m[id].parent->0, attr)
    } else {
        Seq::empty()
    }) + (match handler_at(m, events, id, attr) {
        Some(callback) => seq![callback],
        None => Seq::empty(),
    })
}

/// Delivery is from the root down: the callback of an ancestor of the target
/// is invoked before the callback of the target, which comes last.
pub proof fn lemma_capture_order(
    m: Map<NodeId, NodeView>,
    depth: Map<NodeId, nat>,
    events: Map<u64, Callback>,
    ancestor: NodeId,
    target: NodeId,
    attr: Seq<char>,
) -> (at: int)
    requires
        forest(m),
        ranked(m, depth),
        ancestor != target,
        ancestor_in(m, depth, ancestor, target),
        handler_at(m, events, ancestor, attr) is Some,
        handler_at(m, events, target, attr) is Some,
    ensures
        0 <= at < deliveries(m, depth, events, target, attr).len() - 1,
        deliveries(m, depth, events, target, attr)[at] == handler_at(m, events, ancestor, attr)->0,
        deliveries(m, depth, events, target, attr).last() == handler_at(
            m,
            events,
            target,
            attr,
        )->0,
{
    let parent = m[target].parent->0;
    lemma_ancestor_delivered(m, depth, events, ancestor, parent, attr)
}

/// The callback of every element on the way down to the target is invoked.
pub proof fn lemma_ancestor_delivered(
    m: Map<NodeId, NodeView>,
    depth: Map<NodeId, nat>,
    events: Map<u64, Callback>,
    ancestor: NodeId,
    target: NodeId,
    attr: Seq<char>,
) -> (at: int)
    requires
        ancestor_in(m, depth, ancestor, target),
        handler_at(m, events, ancestor, attr) is Some,
    ensures
        0 <= at < deliveries(m, depth, events, target, attr).len(),
        deliveries(m, depth, events, target, attr)[at] == handler_at(m, events, ancestor, attr)->0,
    decreases depth[target],
{
    if ancestor == target {
        deliveries(m, depth, events, target, attr).len() - 1
    } else {
        lemma_ancestor_delivered(m, depth, events, ancestor, m[target].parent->0, attr)
    }
}

/// Each element has at most one live handler for an event: a handle that is
/// written where another stood supersedes it, and the event then reaches the
/// callback of the new handle alone.
pub proof fn lemma_single_live_handler(
    data: DataView,
    events: Map<u64, Callback>,
    attr: Seq<char>,
    first: u64,
    second: u64,
)
    requires
        data matches DataView::Element { attrs, .. } && crate::arena::attr_names(
            attrs,
        ).no_duplicates(),
        !(attr == "checked"@),
    ensures
        attr_value(
            attrs_of(
                attribute_written(
                    attribute_written(data, attr, decimal(first as nat)),
                    attr,
                    decimal(second as nat),
                ),
            ),
            attr,
        ) == Some(decimal(second as nat)),
        parse_decimal(decimal(second as nat)) == Some(second),
{
    let once = attrs_of(attribute_written(data, attr, decimal(first as nat)));
    crate::arena::lemma_with_attr(attrs_of(data), attr, decimal(first as nat));
    crate::arena::lemma_with_attr(once, attr, decimal(second as nat));
    lemma_round_trip(second);
}

/// The callback that an event reaches at the node `id` through the attribute
/// `attr`, if it reaches one there.
pub fn lookup_handler(dom: &Dom, id: NodeId, attr: &str) -> (callback: Option<Callback>)
    requires
        dom.wf(),
    ensures
        callback == handler_at(dom.doc@, dom.events@, id, attr@),
{
    match dom.doc.get_node(id) {
        Some(node) => {
            assert(node@.data == node.data@);
            match &node.data {
                NodeData::Element(e) => match find_attr(&e.attrs, attr) {
                    Some(at) => match parse_handle(e.attrs[at].value.as_str()) {
                        Some(handle) => Event::call_mut(&dom.events, handle),
                        None => None,
                    },
                    None => None,
                },
                _ => None,
            }
        },
        None => None,
    }
}

/// Delivers the native event `event_name` that was raised at the node
/// `target`. Returns the callbacks to invoke for it, in order: that of each
/// element from the root of the tree down to the target whose attribute
/// `on` + event name holds a known handle. A handle that is not known, or an
/// attribute that reads as no handle, is passed over.
pub fn handle_event(dom: &Dom, target: NodeId, event_name: &str) -> (invoked: Vec<Callback>)
    requires
        dom.wf(),
    ensures
        invoked@ == deliveries(
            dom.doc@,
            dom.doc.depth(),
            dom.events@,
            target,
            "on"@ + event_name@,
        ),
{
    let attr = handler_attribute(event_name);
    let ghost m = dom.doc@;
    let ghost depth = dom.doc.depth();
    let ghost events = dom.events@;
    // The way up: the target first, the root of its tree last.
    let mut chain: Vec<NodeId> = Vec::new();
    chain.push(target);
    let mut current = target;
    loop
        invariant
            dom.wf(),
            m == dom.doc@,
            depth == dom.doc.depth(),
            chain.len() > 0,
            chain[0] == target,
            current == chain[chain.len() - 1],
            forall|j: int|
                0 <= j < chain.len() - 1 ==> m.contains_key(#[trigger] chain[j])
                    && m[chain[j]].parent == Some(chain[j + 1]),
        ensures
            !(m.contains_key(current) && m[current].parent is Some),
        decreases depth[current],
    {
        match dom.doc.parent(current) {
            Some(parent) => {
                chain.push(parent);
                current = parent;
            },
            None => {
                break ;
            },
        }
    }
    // The way down: the callbacks, ancestors first.
    let mut invoked: Vec<Callback> = Vec::new();
    let mut i = chain.len();
    while i > 0
        invariant
            dom.wf(),
            m == dom.doc@,
            depth == dom.doc.depth(),
            events == dom.events@,
            attr@ == "on"@ + event_name@,
            0 <= i <= chain.len(),
            chain.len() > 0,
            forall|j: int|
                0 <= j < chain.len() - 1 ==> m.contains_key(#[trigger] chain[j])
                    && m[chain[j]].parent == Some(chain[j + 1]),
            !(m.contains_key(chain[chain.len() - 1]) && m[chain[chain.len() - 1]].parent is Some),
            i == chain.len() ==> invoked@ == Seq::<Callback>::empty(),
            i < chain.len() ==> invoked@ == deliveries(m, depth, events, chain[i as int], attr@),
        decreases i,
    {
        let ghost above = invoked@;
        i = i - 1;
        let id = chain[i];
        match lookup_handler(dom, id, attr.as_str()) {
            Some(callback) => {
                invoked.push(callback);
            },
            None => {},
        }
        proof {
            let own = match handler_at(m, events, id, attr@) {
                Some(callback) => seq![callback],
                None => Seq::<Callback>::empty(),
            };
            assert(invoked@ =~= above + own);
            if i + 1 < chain.len() {
                assert(m[chain[i as int]].parent == Some(chain[i + 1]));
            }
        }
    }
    invoked
}


/// An attribute that attaches the callback `cb` for the event `event`.
#[derive(Clone, Debug)]
pub struct On<E: EventDescriptor> {
    pub event: E,
    pub cb: Callback,
}

/// The attribute that attaches `cb` for `event`.
pub fn on<E: EventDescriptor>(event: E, cb: Callback) -> (attr: On<E>)
    ensures
        attr.event == event,
        attr.cb == cb,
{
    On { event, cb }
}

/// What is retained of an [`On`]: the element, the attribute and the
/// callback of the attachment, and what undoes it.
pub struct OnState {
    pub el: Element,
    pub name: String,
    pub cb: Callback,
    pub cleanup: Option<RemoveEventHandler>,
}

/// The handle whose registration `cleanup` undoes.
pub open spec fn undone(cleanup: Option<RemoveEventHandler>) -> u64 {
    match cleanup {
        Some(remove) => remove.0,
        None => 0,
    }
}

/// What attaching the callback `cb` to the element `el` through the
/// attribute `attr` does: the callback is registered under a fresh handle,
/// and the handle is written into the attribute, where the element is live.
/// A table that is full takes no callback, and nothing changes.
pub open spec fn attached(
    before: &Dom,
    after: &Dom,
    el: NodeId,
    attr: Seq<char>,
    cb: Callback,
    cleanup: Option<RemoveEventHandler>,
) -> bool {
    if before.events@.len() < MAX_HANDLERS {
        &&& cleanup is Some
        &&& !before.events@.contains_key(undone(cleanup))
        &&& after.events@ == before.events@.insert(undone(cleanup), cb)
        &&& if before.doc@.contains_key(el) {
            after.doc.rewrites(
                &before.doc,
                el,
                attribute_written(before.doc@[el].data, attr, decimal(undone(cleanup) as nat)),
                attribute_signals(el, before.doc@[el].data, attr),
            )
        } else {
            after.doc == before.doc
        }
    } else {
        cleanup is None && *after == *before
    }
}

/// The handler table once the registration that `cleanup` undoes has left
/// it.
pub open spec fn forgotten(
    events: Map<u64, Callback>,
    cleanup: Option<RemoveEventHandler>,
) -> Map<u64, Callback> {
    match cleanup {
        Some(remove) => events.remove(crate::registry::handle_key(remove.0)),
        None => events,
    }
}

/// The data of the element of an attachment once the attribute of the
/// attachment has left it, where the next attachment goes by another name.
pub open spec fn vacated(data: DataView, state_name: Seq<char>, attr: Seq<char>) -> DataView {
    if state_name == attr {
        data
    } else {
        crate::dom::attribute_removed(data, state_name)
    }
}

/// What replacing the attachment of `state` by one of the callback `cb`
/// through the attribute `attr` does: the old handle leaves the table, the
/// attribute of the old attachment leaves the element where the new one goes
/// by another name, and then the callback is registered under a fresh handle
/// that is written into the attribute. A table that is full takes no
/// callback: then the old attachment is gone and no new one is made.
pub open spec fn replaced(
    before: &Dom,
    after: &Dom,
    state: &OnState,
    attr: Seq<char>,
    cb: Callback,
    cleanup: Option<RemoveEventHandler>,
) -> bool {
    let el = state.el.0.0;
    let events = forgotten(before.events@, state.cleanup);
    &&& after.doc.wf()
    &&& after.events.wf()
    &&& if events.len() < MAX_HANDLERS {
        &&& cleanup is Some
        &&& !events.contains_key(undone(cleanup))
        &&& after.events@ == events.insert(undone(cleanup), cb)
    } else {
        cleanup is None && after.events@ == events
    }
    &&& if before.doc@.contains_key(el) {
        let data = vacated(before.doc@[el].data, state.name@, attr);
        &&& after.doc@ == crate::arena::with_data(
            before.doc@,
            el,
            if cleanup is Some {
                attribute_written(data, attr, decimal(undone(cleanup) as nat))
            } else {
                data
            },
        )
        &&& after.doc.tombstones() == before.doc.tombstones()
    } else {
        after.doc == before.doc
    }
}

/// No handler attribute is called `checked`.
proof fn lemma_handler_attribute_name(name: Seq<char>)
    ensures
        "on"@ + name != "checked"@,
{
    reveal_strlit("on");
    reveal_strlit("checked");
    assert(("on"@ + name)[0] == 'o');
    assert("checked"@[0] == 'c');
}

/// Attaches the callback `cb` to the element `el` through the attribute
/// `attr`.
pub fn attach_handler(dom: &mut Dom, el: &Element, attr: &str, cb: Callback) -> (cleanup: Option<
    RemoveEventHandler,
>)
    requires
        old(dom).wf(),
    ensures
        final(dom).wf(),
        touches(&final(dom).doc, &old(dom).doc, el.0.0),
        old(dom).events@.submap_of(final(dom).events@),
        attached(old(dom), final(dom), el.0.0, attr@, cb, cleanup),
{
    match Event::try_insert(&mut dom.events, cb) {
        Some(handle) => {
            let text = format_handle(handle);
            write_attribute(dom, el, attr, text.as_str());
            Some(RemoveEventHandler::new(handle))
        },
        None => None,
    }
}

impl<E: EventDescriptor> On<E> {
    /// Attaches the callback to the element `el`: registers it, and writes
    /// its handle into the attribute of the event. Returns what undoes the
    /// registration, or nothing where the handler table is full. From then
    /// on an event of this kind at the element reaches this callback, and no
    /// other that was attached there before.
    pub fn attach(self, dom: &mut Dom, el: &Element) -> (cleanup: Option<RemoveEventHandler>)
        requires
            old(dom).wf(),
        ensures
            final(dom).wf(),
            touches(&final(dom).doc, &old(dom).doc, el.0.0),
            old(dom).events@.submap_of(final(dom).events@),
            attached(
                old(dom),
                final(dom),
                el.0.0,
                "on"@ + self.event.event_name(),
                self.cb,
                cleanup,
            ),
            cleanup is Some && old(dom).doc@.contains_key(el.0.0) && old(
                dom,
            ).doc@[el.0.0].data is Element ==> handler_at(
                final(dom).doc@,
                final(dom).events@,
                el.0.0,
                "on"@ + self.event.event_name(),
            ) == Some(self.cb),
    {
        let name = self.event.html_name();
        let cleanup = attach_handler(dom, el, cow_text(&name), self.cb);
        proof {
            if cleanup is Some && old(dom).doc@.contains_key(el.0.0) && old(
                dom,
            ).doc@[el.0.0].data is Element {
                let handle = undone(cleanup);
                let attr = "on"@ + self.event.event_name();
                lemma_handler_attribute_name(self.event.event_name());
                crate::arena::lemma_with_attr(
                    attrs_of(old(dom).doc@[el.0.0].data),
                    attr,
                    decimal(handle as nat),
                );
                lemma_round_trip(handle);
                assert(dom.events@.contains_key(handle));
                assert(crate::registry::handle_key(handle) == handle);
            }
        }
        cleanup
    }
}

impl Release for OnState {
    open spec fn released(&self, before: &Dom, after: &Dom, state: &OnState) -> bool {
        &&& state.cleanup is None
        &&& state.el == self.el
        &&& state.cb == self.cb
        &&& state.name == self.name
        &&& after.doc == before.doc
        &&& after.events@ == forgotten(before.events@, self.cleanup)
        &&& self.cleanup is None ==> *after == *before
    }

    fn release(&mut self, dom: &mut Dom) {
        match self.cleanup.take() {
            Some(previous) => {
                Event::remove(&mut dom.events, previous.into_inner());
            },
            None => {},
        }
    }
}

impl<E: EventDescriptor> Attribute for On<E> {
    type State = OnState;

    open spec fn shown_by(&self, state: &OnState) -> bool {
        state.cb == self.cb && state.name@ == "on"@ + self.event.event_name()
    }

    open spec fn built(&self, before: &Dom, after: &Dom, el: NodeId, state: &OnState) -> bool {
        &&& state.el.0.0 == el
        &&& state.cb == self.cb
        &&& state.name@ == "on"@ + self.event.event_name()
        &&& attached(before, after, el, "on"@ + self.event.event_name(), self.cb, state.cleanup)
    }

    open spec fn rebuilt(&self, before: &Dom, after: &Dom, was: &OnState, state: &OnState) -> bool {
        &&& state.el == was.el
        &&& state.cb == self.cb
        &&& state.name@ == "on"@ + self.event.event_name()
        &&& if self.shown_by(was) {
            *after == *before && *state == *was
        } else {
            replaced(
                before,
                after,
                was,
                "on"@ + self.event.event_name(),
                self.cb,
                state.cleanup,
            )
        }
    }

    open spec fn markup(&self) -> Seq<char> {
        Seq::empty()
    }

    open spec fn class_text(&self, class: Seq<char>) -> Seq<char> {
        class
    }

    open spec fn style_text(&self, style: Seq<char>) -> Seq<char> {
        style
    }

    open spec fn inner_text(&self, inner: Seq<char>) -> Seq<char> {
        inner
    }

    open spec fn estimate(&self) -> usize {
        0
    }

    fn html_len(&self) -> (len: usize) {
        let len: usize = 0;
        assert(len == self.estimate());
        len
    }

    fn to_html(
        self,
        buf: &mut String,
        class: &mut String,
        style: &mut String,
        inner_html: &mut String,
    ) {
        assert(buf@ + Seq::<char>::empty() =~= buf@);
    }

    fn build(self, dom: &mut Dom, el: &Element, acc: &mut Accumulator) -> (state: OnState) {
        let name = self.event.html_name();
        let cb = self.cb;
        let cleanup = attach_handler(dom, el, cow_text(&name), cb);
        OnState { el: *el, name: String::from_str(cow_text(&name)), cb, cleanup }
    }

    fn rebuild(self, dom: &mut Dom, state: &mut OnState, acc: &mut Accumulator)
        ensures
            *final(acc) == *old(acc),
    {
        let name = self.event.html_name();
        let same_name = crate::text::str_eq(cow_text(&name), state.name.as_str());
        if same_name && self.cb == state.cb {
            return ;
        }
        // The old handle leaves the table before the new one is installed.
        match state.cleanup.take() {
            Some(previous) => {
                Event::remove(&mut dom.events, previous.into_inner());
            },
            None => {},
        }
        let el = state.el;
        if !same_name && dom.doc.contains(el.0.0) {
            dom.remove_attribute(&el, state.name.as_str());
            assert(dom.doc@.dom() =~= old(dom).doc@.dom());
        }
        let ghost middle = *dom;
        let cleanup = attach_handler(dom, &el, cow_text(&name), self.cb);
        proof {
            crate::attribute::lemma_same_shape_trans(&dom.doc, &middle.doc, &old(dom).doc);
            let id = el.0.0;
            if old(dom).doc@.contains_key(id) {
                let data = vacated(old(dom).doc@[id].data, old(state).name@, name@);
                assert(middle.doc@ =~= crate::arena::with_data(old(dom).doc@, id, data));
                assert(dom.doc@ =~= crate::arena::with_data(
                    old(dom).doc@,
                    id,
                    if cleanup is Some {
                        attribute_written(data, name@, decimal(undone(cleanup) as nat))
                    } else {
                        data
                    },
                ));
            }
        }
        state.cleanup = cleanup;
        state.cb = self.cb;
        state.name = String::from_str(cow_text(&name));
    }

    fn dry_resolve(&mut self) {
    }
}

impl<E: EventDescriptor, NewAttr: Attribute> NextAttribute<NewAttr> for On<E> {
    type Output = (On<E>, NewAttr);

    open spec fn with_attr(self, new_attr: NewAttr) -> (On<E>, NewAttr) {
        (self, new_attr)
    }

    fn add_any_attr(self, new_attr: NewAttr) -> (output: (On<E>, NewAttr)) {
        (self, new_attr)
    }
}

impl<E: EventDescriptor> Shareable for On<E> {
    type Cloneable = On<E>;

    type CloneableOwned = On<E>;

    fn into_cloneable(self) -> (shared: On<E>) {
        self
    }

    fn into_cloneable_owned(self) -> (shared: On<E>) {
        self
    }
}

/// The `click` event.
#[derive(Copy, Clone, Debug)]
#[allow(non_camel_case_types)]
pub struct click;

impl EventDescriptor for click {
    type EventType = Event;

    const BUBBLES: bool = true;

    open spec fn event_name(&self) -> Seq<char> {
        "click"@
    }

    fn name(&self) -> (name: Cow<'static, str>) {
        Cow::Borrowed("click")
    }

    fn html_name(&self) -> (name: Cow<'static, str>) {
        proof {
            reveal_strlit("onclick");
            reveal_strlit("on");
            reveal_strlit("click");
            assert("onclick"@ =~= "on"@ + "click"@);
        }
        Cow::Borrowed("onclick")
    }

    fn event_delegation_key(&self) -> (key: Cow<'static, str>) {
        proof {
            reveal_strlit("$$$click");
            reveal_strlit("$$$");
            reveal_strlit("click");
            assert("$$$click"@ =~= "$$$"@ + "click"@);
        }
        Cow::Borrowed("$$$click")
    }
}

/// The `dblclick` event.
#[derive(Copy, Clone, Debug)]
#[allow(non_camel_case_types)]
pub struct dblclick;

impl EventDescriptor for dblclick {
    type EventType = Event;

    const BUBBLES: bool = true;

    open spec fn event_name(&self) -> Seq<char> {
        "dblclick"@
    }

    fn name(&self) -> (name: Cow<'static, str>) {
        Cow::Borrowed("dblclick")
    }

    fn html_name(&self) -> (name: Cow<'static, str>) {
        proof {
            reveal_strlit("ondblclick");
            reveal_strlit("on");
            reveal_strlit("dblclick");
            assert("ondblclick"@ =~= "on"@ + "dblclick"@);
        }
        Cow::Borrowed("ondblclick")
    }

    fn event_delegation_key(&self) -> (key: Cow<'static, str>) {
        proof {
            reveal_strlit("$$$dblclick");
            reveal_strlit("$$$");
            reveal_strlit("dblclick");
            assert("$$$dblclick"@ =~= "$$$"@ + "dblclick"@);
        }
        Cow::Borrowed("$$$dblclick")
    }
}

/// The `input` event.
#[derive(Copy, Clone, Debug)]
#[allow(non_camel_case_types)]
pub struct input;

impl EventDescriptor for input {
    type EventType = Event;

    const BUBBLES: bool = true;

    open spec fn event_name(&self) -> Seq<char> {
        "input"@
    }

    fn name(&self) -> (name: Cow<'static, str>) {
        Cow::Borrowed("input")
    }

    fn html_name(&self) -> (name: Cow<'static, str>) {
        proof {
            reveal_strlit("oninput");
            reveal_strlit("on");
            reveal_strlit("input");
            assert("oninput"@ =~= "on"@ + "input"@);
        }
        Cow::Borrowed("oninput")
    }

    fn event_delegation_key(&self) -> (key: Cow<'static, str>) {
        proof {
            reveal_strlit("$$$input");
            reveal_strlit("$$$");
            reveal_strlit("input");
            assert("$$$input"@ =~= "$$$"@ + "input"@);
        }
        Cow::Borrowed("$$$input")
    }
}

/// The `change` event.
#[derive(Copy, Clone, Debug)]
#[allow(non_camel_case_types)]
pub struct change;

impl EventDescriptor for change {
    type EventType = Event;

    const BUBBLES: bool = true;

    open spec fn event_name(&self) -> Seq<char> {
        "change"@
    }

    fn name(&self) -> (name: Cow<'static, str>) {
        Cow::Borrowed("change")
    }

    fn html_name(&self) -> (name: Cow<'static, str>) {
        proof {
            reveal_strlit("onchange");
            reveal_strlit("on");
            reveal_strlit("change");
            assert("onchange"@ =~= "on"@ + "change"@);
        }
        Cow::Borrowed("onchange")
    }

    fn event_delegation_key(&self) -> (key: Cow<'static, str>) {
        proof {
            reveal_strlit("$$$change");
            reveal_strlit("$$$");
            reveal_strlit("change");
            assert("$$$change"@ =~= "$$$"@ + "change"@);
        }
        Cow::Borrowed("$$$change")
    }
}

/// The `submit` event.
#[derive(Copy, Clone, Debug)]
#[allow(non_camel_case_types)]
pub struct submit;

impl EventDescriptor for submit {
    type EventType = Event;

    const BUBBLES: bool = true;

    open spec fn event_name(&self) -> Seq<char> {
        "submit"@
    }

    fn name(&self) -> (name: Cow<'static, str>) {
        Cow::Borrowed("submit")
    }

    fn html_name(&self) -> (name: Cow<'static, str>) {
        proof {
            reveal_strlit("onsubmit");
            reveal_strlit("on");
            reveal_strlit("submit");
            assert("onsubmit"@ =~= "on"@ + "submit"@);
        }
        Cow::Borrowed("onsubmit")
    }

    fn event_delegation_key(&self) -> (key: Cow<'static, str>) {
        proof {
            reveal_strlit("$$$submit");
            reveal_strlit("$$$");
            reveal_strlit("submit");
            assert("$$$submit"@ =~= "$$$"@ + "submit"@);
        }
        Cow::Borrowed("$$$submit")
    }
}

/// The `keydown` event.
#[derive(Copy, Clone, Debug)]
#[allow(non_camel_case_types)]
pub struct keydown;

impl EventDescriptor for keydown {
    type EventType = Event;

    const BUBBLES: bool = true;

    open spec fn event_name(&self) -> Seq<char> {
        "keydown"@
    }

    fn name(&self) -> (name: Cow<'static, str>) {
        Cow::Borrowed("keydown")
    }

    fn html_name(&self) -> (name: Cow<'static, str>) {
        proof {
            reveal_strlit("onkeydown");
            reveal_strlit("on");
            reveal_strlit("keydown");
            assert("onkeydown"@ =~= "on"@ + "keydown"@);
        }
        Cow::Borrowed("onkeydown")
    }

    fn event_delegation_key(&self) -> (key: Cow<'static, str>) {
        proof {
            reveal_strlit("$$$keydown");
            reveal_strlit("$$$");
            reveal_strlit("keydown");
            assert("$$$keydown"@ =~= "$$$"@ + "keydown"@);
        }
        Cow::Borrowed("$$$keydown")
    }
}

/// The `keyup` event.
#[derive(Copy, Clone, Debug)]
#[allow(non_camel_case_types)]
pub struct keyup;

impl EventDescriptor for keyup {
    type EventType = Event;

    const BUBBLES: bool = true;

    open spec fn event_name(&self) -> Seq<char> {
        "keyup"@
    }

    fn name(&self) -> (name: Cow<'static, str>) {
        Cow::Borrowed("keyup")
    }

    fn html_name(&self) -> (name: Cow<'static, str>) {
        proof {
            reveal_strlit("onkeyup");
            reveal_strlit("on");
            reveal_strlit("keyup");
            assert("onkeyup"@ =~= "on"@ + "keyup"@);
        }
        Cow::Borrowed("onkeyup")
    }

    fn event_delegation_key(&self) -> (key: Cow<'static, str>) {
        proof {
            reveal_strlit("$$$keyup");
            reveal_strlit("$$$");
            reveal_strlit("keyup");
            assert("$$$keyup"@ =~= "$$$"@ + "keyup"@);
        }
        Cow::Borrowed("$$$keyup")
    }
}

/// The `keypress` event.
#[derive(Copy, Clone, Debug)]
#[allow(non_camel_case_types)]
pub struct keypress;

impl EventDescriptor for keypress {
    type EventType = Event;

    const BUBBLES: bool = true;

    open spec fn event_name(&self) -> Seq<char> {
        "keypress"@
    }

    fn name(&self) -> (name: Cow<'static, str>) {
        Cow::Borrowed("keypress")
    }

    fn html_name(&self) -> (name: Cow<'static, str>) {
        proof {
            reveal_strlit("onkeypress");
            reveal_strlit("on");
            reveal_strlit("keypress");
            assert("onkeypress"@ =~= "on"@ + "keypress"@);
        }
        Cow::Borrowed("onkeypress")
    }

    fn event_delegation_key(&self) -> (key: Cow<'static, str>) {
        proof {
            reveal_strlit("$$$keypress");
            reveal_strlit("$$$");
            reveal_strlit("keypress");
            assert("$$$keypress"@ =~= "$$$"@ + "keypress"@);
        }
        Cow::Borrowed("$$$keypress")
    }
}

/// The `mousedown` event.
#[derive(Copy, Clone, Debug)]
#[allow(non_camel_case_types)]
pub struct mousedown;

impl EventDescriptor for mousedown {
    type EventType = Event;

    const BUBBLES: bool = true;

    open spec fn event_name(&self) -> Seq<char> {
        "mousedown"@
    }

    fn name(&self) -> (name: Cow<'static, str>) {
        Cow::Borrowed("mousedown")
    }

    fn html_name(&self) -> (name: Cow<'static, str>) {
        proof {
            reveal_strlit("onmousedown");
            reveal_strlit("on");
            reveal_strlit("mousedown");
            assert("onmousedown"@ =~= "on"@ + "mousedown"@);
        }
        Cow::Borrowed("onmousedown")
    }

    fn event_delegation_key(&self) -> (key: Cow<'static, str>) {
        proof {
            reveal_strlit("$$$mousedown");
            reveal_strlit("$$$");
            reveal_strlit("mousedown");
            assert("$$$mousedown"@ =~= "$$$"@ + "mousedown"@);
        }
        Cow::Borrowed("$$$mousedown")
    }
}

/// The `mouseup` event.
#[derive(Copy, Clone, Debug)]
#[allow(non_camel_case_types)]
pub struct mouseup;

impl EventDescriptor for mouseup {
    type EventType = Event;

    const BUBBLES: bool = true;

    open spec fn event_name(&self) -> Seq<char> {
        "mouseup"@
    }

    fn name(&self) -> (name: Cow<'static, str>) {
        Cow::Borrowed("mouseup")
    }

    fn html_name(&self) -> (name: Cow<'static, str>) {
        proof {
            reveal_strlit("onmouseup");
            reveal_strlit("on");
            reveal_strlit("mouseup");
            assert("onmouseup"@ =~= "on"@ + "mouseup"@);
        }
        Cow::Borrowed("onmouseup")
    }

    fn event_delegation_key(&self) -> (key: Cow<'static, str>) {
        proof {
            reveal_strlit("$$$mouseup");
            reveal_strlit("$$$");
            reveal_strlit("mouseup");
            assert("$$$mouseup"@ =~= "$$$"@ + "mouseup"@);
        }
        Cow::Borrowed("$$$mouseup")
    }
}

/// The `mousemove` event.
#[derive(Copy, Clone, Debug)]
#[allow(non_camel_case_types)]
pub struct mousemove;

impl EventDescriptor for mousemove {
    type EventType = Event;

    const BUBBLES: bool = true;

    open spec fn event_name(&self) -> Seq<char> {
        "mousemove"@
    }

    fn name(&self) -> (name: Cow<'static, str>) {
        Cow::Borrowed("mousemove")
    }

    fn html_name(&self) -> (name: Cow<'static, str>) {
        proof {
            reveal_strlit("onmousemove");
            reveal_strlit("on");
            reveal_strlit("mousemove");
            assert("onmousemove"@ =~= "on"@ + "mousemove"@);
        }
        Cow::Borrowed("onmousemove")
    }

    fn event_delegation_key(&self) -> (key: Cow<'static, str>) {
        proof {
            reveal_strlit("$$$mousemove");
            reveal_strlit("$$$");
            reveal_strlit("mousemove");
            assert("$$$mousemove"@ =~= "$$$"@ + "mousemove"@);
        }
        Cow::Borrowed("$$$mousemove")
    }
}

/// The `focus` event.
#[derive(Copy, Clone, Debug)]
#[allow(non_camel_case_types)]
pub struct focus;

impl EventDescriptor for focus {
    type EventType = Event;

    const BUBBLES: bool = false;

    open spec fn event_name(&self) -> Seq<char> {
        "focus"@
    }

    fn name(&self) -> (name: Cow<'static, str>) {
        Cow::Borrowed("focus")
    }

    fn html_name(&self) -> (name: Cow<'static, str>) {
        proof {
            reveal_strlit("onfocus");
            reveal_strlit("on");
            reveal_strlit("focus");
            assert("onfocus"@ =~= "on"@ + "focus"@);
        }
        Cow::Borrowed("onfocus")
    }

    fn event_delegation_key(&self) -> (key: Cow<'static, str>) {
        proof {
            reveal_strlit("$$$focus");
            reveal_strlit("$$$");
            reveal_strlit("focus");
            assert("$$$focus"@ =~= "$$$"@ + "focus"@);
        }
        Cow::Borrowed("$$$focus")
    }
}

/// The `blur` event.
#[derive(Copy, Clone, Debug)]
#[allow(non_camel_case_types)]
pub struct blur;

impl EventDescriptor for blur {
    type EventType = Event;

    const BUBBLES: bool = false;

    open spec fn event_name(&self) -> Seq<char> {
        "blur"@
    }

    fn name(&self) -> (name: Cow<'static, str>) {
        Cow::Borrowed("blur")
    }

    fn html_name(&self) -> (name: Cow<'static, str>) {
        proof {
            reveal_strlit("onblur");
            reveal_strlit("on");
            reveal_strlit("blur");
            assert("onblur"@ =~= "on"@ + "blur"@);
        }
        Cow::Borrowed("onblur")
    }

    fn event_delegation_key(&self) -> (key: Cow<'static, str>) {
        proof {
            reveal_strlit("$$$blur");
            reveal_strlit("$$$");
            reveal_strlit("blur");
            assert("$$$blur"@ =~= "$$$"@ + "blur"@);
        }
        Cow::Borrowed("$$$blur")
    }
}

/// The `scroll` event.
#[derive(Copy, Clone, Debug)]
#[allow(non_camel_case_types)]
pub struct scroll;

impl EventDescriptor for scroll {
    type EventType = Event;

    const BUBBLES: bool = false;

    open spec fn event_name(&self) -> Seq<char> {
        "scroll"@
    }

    fn name(&self) -> (name: Cow<'static, str>) {
        Cow::Borrowed("scroll")
    }

    fn html_name(&self) -> (name: Cow<'static, str>) {
        proof {
            reveal_strlit("onscroll");
            reveal_strlit("on");
            reveal_strlit("scroll");
            assert("onscroll"@ =~= "on"@ + "scroll"@);
        }
        Cow::Borrowed("onscroll")
    }

    fn event_delegation_key(&self) -> (key: Cow<'static, str>) {
        proof {
            reveal_strlit("$$$scroll");
            reveal_strlit("$$$");
            reveal_strlit("scroll");
            assert("$$$scroll"@ =~= "$$$"@ + "scroll"@);
        }
        Cow::Borrowed("$$$scroll")
    }
}

} // verus!
