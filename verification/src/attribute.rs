//! Attributes: values that know how to write themselves onto an element, and
//! into markup.
//!
//! Several attributes of one element are written in one pass. Ordinary
//! attributes are independent of each other: each is set as it comes, and a
//! name that comes twice keeps the later value. The parts of `class` and of
//! `style` are different: every attribute may add to them, so they are
//! gathered in an accumulator during the pass and written once at its end.
use crate::arena::{Arena, NodeId};
use crate::dom::Element;
use crate::renderer::Dom;
use crate::text::{escape_attr, escaped, str_eq, trim, trimmed};
use crate::view::saturated;
use vstd::prelude::*;
use vstd::string::*;

verus! {

/// The buffers of one pass over the attributes of an element: the class
/// names and the style declarations gathered so far.
pub struct Accumulator {
    pub class: String,
    pub style: String,
}

/// `acc` with `part` added behind the separator `sep`. An empty part adds
/// nothing, and the first part stands without a separator.
pub open spec fn joined(acc: Seq<char>, sep: Seq<char>, part: Seq<char>) -> Seq<char> {
    if part.len() == 0 {
        acc
    } else if acc.len() == 0 {
        part
    } else {
        acc + sep + part
    }
}

/// Adds `part` to `acc` behind the separator `sep`.
pub fn join(acc: &mut String, sep: &str, part: &str)
    ensures
        final(acc)@ == joined(old(acc)@, sep@, part@),
{
    if !part.is_empty() {
        if !acc.as_str().is_empty() {
            acc.append(sep);
        }
        acc.append(part);
    }
    assert(acc@ =~= joined(old(acc)@, sep@, part@));
}

impl Accumulator {
    /// Empty buffers, for the start of a pass.
    pub fn new() -> (acc: Accumulator)
        ensures
            acc.class@ == Seq::<char>::empty(),
            acc.style@ == Seq::<char>::empty(),
    {
        Accumulator { class: String::new(), style: String::new() }
    }
}

/// The tag and the namespace of an element, and nothing for another kind of
/// node.
pub open spec fn element_name(data: crate::arena::DataView) -> Option<(Seq<char>, Option<Seq<char>>)> {
    match data {
        crate::arena::DataView::Element { tag, namespace, .. } => Some((tag, namespace)),
        _ => None,
    }
}

/// How `after` differs from `before` where the element `el` alone was
/// written: every other node is as it was, `el` has the links that it had
/// and is the element that it was, and no node came or went.
pub open spec fn touches(after: &Arena, before: &Arena, el: NodeId) -> bool {
    &&& after.wf()
    &&& after@.dom() == before@.dom()
    &&& forall|x: NodeId| #[trigger] before@.contains_key(x) && x != el ==> after@[x] == before@[x]
    &&& before@.contains_key(el) ==> after@[el].parent == before@[el].parent
        && after@[el].children == before@[el].children && element_name(after@[el].data)
        == element_name(before@[el].data)
    &&& after.tombstones() == before.tombstones()
    &&& before.pending().is_prefix_of(after.pending())
    &&& forall|a: NodeId, x: NodeId| after.ancestor(a, x) == before.ancestor(a, x)
}

/// How `after` differs from `before` where data alone was written: the same
/// nodes are live, each with the links that it had.
pub open spec fn same_shape(after: &Arena, before: &Arena) -> bool {
    &&& after.wf()
    &&& after@.dom() == before@.dom()
    &&& forall|x: NodeId| #[trigger]
        before@.contains_key(x) ==> after@[x].parent == before@[x].parent && after@[x].children
            == before@[x].children
    &&& after.tombstones() == before.tombstones()
    &&& before.pending().is_prefix_of(after.pending())
    &&& forall|a: NodeId, x: NodeId| after.ancestor(a, x) == before.ancestor(a, x)
}

/// Writing data, and then writing data again, is writing data.
pub proof fn lemma_same_shape_trans(after: &Arena, middle: &Arena, before: &Arena)
    requires
        same_shape(middle, before),
        same_shape(after, middle),
    ensures
        same_shape(after, before),
{
    assert forall|x: NodeId| #[trigger] before@.contains_key(x) implies after@[x].parent
        == before@[x].parent && after@[x].children == before@[x].children by {
        assert(middle@.contains_key(x));
    }
}

/// Writing an element, and then writing it again, is writing it.
pub proof fn lemma_touches_trans(after: &Arena, middle: &Arena, before: &Arena, el: NodeId)
    requires
        touches(middle, before, el),
        touches(after, middle, el),
    ensures
        touches(after, before, el),
{
    assert forall|x: NodeId| #[trigger] before@.contains_key(x) && x != el implies after@[x]
        == before@[x] by {
        assert(middle@.contains_key(x));
    }
    if before@.contains_key(el) {
        assert(middle@.contains_key(el));
    }
}

/// Retained state that may hold something outside the document, which it
/// gives up when its element is unmounted.
pub trait Release: Sized {
    /// What releasing this state does: how the renderer `after` and the
    /// state `state` come from the renderer `before` and from this state.
    spec fn released(&self, before: &Dom, after: &Dom, state: &Self) -> bool;

    /// Gives up what the state holds outside the document: its handlers
    /// leave the table.
    fn release(&mut self, dom: &mut Dom)
        requires
            old(dom).wf(),
        ensures
            final(dom).events.wf(),
            final(dom).events@.submap_of(old(dom).events@),
            final(dom).doc == old(dom).doc,
            old(self).released(old(dom), final(dom), final(self)),
    ;
}

/// Anything that can modify an element.
pub trait Attribute: Sized {
    /// What is retained between the first write and the later ones.
    type State: Release;

    /// Whether `state` shows this value already.
    spec fn shown_by(&self, state: &Self::State) -> bool;

    /// What writing this attribute onto the element `el` for the first time
    /// does: how the renderer `after` and the retained state `state` come
    /// from the renderer `before`.
    spec fn built(&self, before: &Dom, after: &Dom, el: NodeId, state: &Self::State) -> bool;

    /// What writing a new value of this attribute does: how the renderer
    /// `after` and the state `state` come from the renderer `before` and
    /// from the state `was`.
    spec fn rebuilt(
        &self,
        before: &Dom,
        after: &Dom,
        was: &Self::State,
        state: &Self::State,
    ) -> bool;

    /// What this attribute adds to the markup of the opening tag.
    spec fn markup(&self) -> Seq<char>;

    /// The gathered class names once this attribute has added to `class`.
    spec fn class_text(&self, class: Seq<char>) -> Seq<char>;

    /// The gathered style declarations once this attribute has added to
    /// `style`.
    spec fn style_text(&self, style: Seq<char>) -> Seq<char>;

    /// The inner markup once this attribute has added to `inner`.
    spec fn inner_text(&self, inner: Seq<char>) -> Seq<char>;

    /// The estimate that the attribute gives of the length of its markup.
    spec fn estimate(&self) -> usize;

    /// An estimate of the length of the attribute in markup, in bytes.
    fn html_len(&self) -> (len: usize)
        ensures
            len == self.estimate(),
    ;

    /// Writes the attribute as markup: what is an attribute of its own to
    /// the end of `buf`, and what is a part of `class`, of `style` or of the
    /// inner markup into the buffer for that.
    fn to_html(
        self,
        buf: &mut String,
        class: &mut String,
        style: &mut String,
        inner_html: &mut String,
    )
        ensures
            final(buf)@ == old(buf)@ + self.markup(),
            final(class)@ == self.class_text(old(class)@),
            final(style)@ == self.style_text(old(style)@),
            final(inner_html)@ == self.inner_text(old(inner_html)@),
    ;

    /// Writes the attribute onto the element `el` for the first time, and
    /// adds its parts of `class` and `style` to `acc`.
    fn build(self, dom: &mut Dom, el: &Element, acc: &mut Accumulator) -> (state: Self::State)
        requires
            old(dom).wf(),
        ensures
            final(dom).events.wf(),
            old(dom).events@.submap_of(final(dom).events@),
            touches(&final(dom).doc, &old(dom).doc, el.0.0),
            self.shown_by(&state),
            self.built(old(dom), final(dom), el.0.0, &state),
            final(acc).class@ == self.class_text(old(acc).class@),
            final(acc).style@ == self.style_text(old(acc).style@),
    ;

    /// Writes a new value of the attribute onto the element of `state`, and
    /// adds its parts of `class` and `style` to `acc`. A value that `state`
    /// shows already is not written again.
    fn rebuild(self, dom: &mut Dom, state: &mut Self::State, acc: &mut Accumulator)
        requires
            old(dom).wf(),
        ensures
            final(dom).events.wf(),
            same_shape(&final(dom).doc, &old(dom).doc),
            self.shown_by(final(state)),
            self.shown_by(old(state)) ==> *final(dom) == *old(dom) && *final(state) == *old(state),
            self.rebuilt(old(dom), final(dom), old(state), final(state)),
            final(acc).class@ == self.class_text(old(acc).class@),
            final(acc).style@ == self.style_text(old(acc).style@),
    ;

    /// Runs the attribute without other effects. Nothing here waits for
    /// data, so nothing changes.
    fn dry_resolve(&mut self)
        ensures
            *final(self) == *old(self),
    ;
}

/// An attribute that can be turned into a form that is shared between
/// several elements.
pub trait Shareable: Attribute {
    /// The same attribute in a form that can be cloned, to be used on
    /// several elements.
    type Cloneable: Attribute + Clone;

    /// The same attribute in a form that can be cloned and borrows nothing.
    type CloneableOwned: Attribute + Clone;

    /// The attribute in a form that can be cloned. It is written as the
    /// attribute itself is.
    fn into_cloneable(self) -> (shared: Self::Cloneable)
        ensures
            shared.markup() == self.markup(),
            forall|acc: Seq<char>| #[trigger] shared.class_text(acc) == self.class_text(acc),
            forall|acc: Seq<char>| #[trigger] shared.style_text(acc) == self.style_text(acc),
            forall|acc: Seq<char>| #[trigger] shared.inner_text(acc) == self.inner_text(acc),
    ;

    /// The attribute in a form that can be cloned and borrows nothing. It is
    /// written as the attribute itself is.
    fn into_cloneable_owned(self) -> (shared: Self::CloneableOwned)
        ensures
            shared.markup() == self.markup(),
            forall|acc: Seq<char>| #[trigger] shared.class_text(acc) == self.class_text(acc),
            forall|acc: Seq<char>| #[trigger] shared.style_text(acc) == self.style_text(acc),
            forall|acc: Seq<char>| #[trigger] shared.inner_text(acc) == self.inner_text(acc),
    ;
}

/// An attribute list that can take one more attribute.
pub trait NextAttribute<NewAttr: Attribute>: Sized {
    /// The list with the new attribute at its end.
    type Output: Attribute;

    /// What the list is with `new_attr` at its end.
    spec fn with_attr(self, new_attr: NewAttr) -> Self::Output;

    /// Adds `new_attr` at the end of the list.
    fn add_any_attr(self, new_attr: NewAttr) -> (output: Self::Output)
        ensures
            output == self.with_attr(new_attr),
    ;
}

/// The markup that the gathered parts of the attribute `name` become: the
/// name and the trimmed, escaped text in double quotes, behind a space; or
/// nothing where nothing was gathered.
pub open spec fn gathered_markup(name: Seq<char>, text: Seq<char>) -> Seq<char> {
    if text.len() == 0 {
        Seq::empty()
    } else {
        " "@ + name + "=\""@ + escaped(trimmed(text), true) + "\""@
    }
}

/// Writes the attributes `attr` as markup to the end of `buf`: first each
/// attribute of its own, then `class` and `style` with all that the
/// attributes gathered for them. Returns the inner markup that the
/// attributes set.
pub fn attributes_to_html<At: Attribute>(attr: At, buf: &mut String) -> (inner_html: String)
    ensures
        final(buf)@ == old(buf)@ + attr.markup() + gathered_markup(
            "class"@,
            attr.class_text(Seq::empty()),
        ) + gathered_markup("style"@, attr.style_text(Seq::empty())),
        inner_html@ == attr.inner_text(Seq::empty()),
{
    let ghost start = buf@;
    let mut class = String::new();
    let mut style = String::new();
    let mut inner_html = String::new();
    attr.to_html(buf, &mut class, &mut style, &mut inner_html);
    let ghost own = buf@;
    if !class.as_str().is_empty() {
        buf.append(" ");
        buf.append("class");
        buf.append("=\"");
        let text = escape_attr(trim(class.as_str()));
        buf.append(text.as_str());
        buf.append("\"");
    }
    assert(buf@ =~= own + gathered_markup("class"@, class@));
    let ghost classed = buf@;
    if !style.as_str().is_empty() {
        buf.append(" ");
        buf.append("style");
        buf.append("=\"");
        let text = escape_attr(trim(style.as_str()));
        buf.append(text.as_str());
        buf.append("\"");
    }
    assert(buf@ =~= classed + gathered_markup("style"@, style@));
    inner_html
}


/// The name of an attribute.
pub trait AttributeKey {
    /// The name as it is written in markup.
    const KEY: &'static str;
}

/// Something that can be the value of an attribute: a text.
pub trait AttributeValue: Sized {
    /// The characters of the value.
    spec fn text(&self) -> Seq<char>;

    /// The value as text.
    fn as_text(&self) -> (text: &str)
        ensures
            text@ == self.text(),
    ;
}

impl AttributeValue for &str {
    open spec fn text(&self) -> Seq<char> {
        self@
    }

    fn as_text(&self) -> (text: &str) {
        self
    }
}

impl AttributeValue for String {
    open spec fn text(&self) -> Seq<char> {
        self@
    }

    fn as_text(&self) -> (text: &str) {
        self.as_str()
    }
}

/// The `style` attribute.
#[derive(Debug, Copy, Clone, PartialEq, Eq, Hash)]
pub struct Style;

impl AttributeKey for Style {
    const KEY: &'static str = "style";
}

/// The `class` attribute.
#[derive(Debug, Copy, Clone, PartialEq, Eq, Hash)]
pub struct Class;

impl AttributeKey for Class {
    const KEY: &'static str = "class";
}

/// The `id` attribute.
#[derive(Debug, Copy, Clone, PartialEq, Eq, Hash)]
pub struct Id;

impl AttributeKey for Id {
    const KEY: &'static str = "id";
}

/// The `href` attribute.
#[derive(Debug, Copy, Clone, PartialEq, Eq, Hash)]
pub struct Href;

impl AttributeKey for Href {
    const KEY: &'static str = "href";
}

/// An attribute with the name `K` and a value of the type `V`.
#[derive(Debug, Clone)]
pub struct Attr<K: AttributeKey, V: AttributeValue>(pub K, pub V);

/// What is retained of an [`Attr`]: its element and the value last written.
pub struct AttrState {
    pub el: Element,
    pub value: String,
}

/// The markup of an attribute of its own: the name and the escaped value in
/// double quotes, behind a space. `class` and `style` are no attributes of
/// their own: their parts are gathered.
pub open spec fn attr_markup(name: Seq<char>, value: Seq<char>) -> Seq<char> {
    if name == "class"@ || name == "style"@ {
        Seq::empty()
    } else {
        " "@ + name + "=\""@ + escaped(value, true) + "\""@
    }
}

/// The gathered class names once the attribute `name` with `value` has
/// added to `class`: the value of a `class` attribute comes behind a space.
pub open spec fn class_joined(name: Seq<char>, value: Seq<char>, class: Seq<char>) -> Seq<char> {
    if name == "class"@ {
        joined(class, " "@, value)
    } else {
        class
    }
}

/// The gathered style declarations once the attribute `name` with `value`
/// has added to `style`: the value of a `style` attribute comes behind a
/// semicolon.
pub open spec fn style_joined(name: Seq<char>, value: Seq<char>, style: Seq<char>) -> Seq<char> {
    if name == "class"@ || name != "style"@ {
        style
    } else {
        joined(style, ";"@, value)
    }
}

/// What showing the value `value` of the attribute `name` on the element
/// `el` does: where the value differs from the one last shown, the
/// attribute is no gathered one, and the element is live, the attribute is
/// written; else nothing changes.
pub open spec fn attr_shown(
    before: &Dom,
    after: &Dom,
    el: NodeId,
    name: Seq<char>,
    value: Seq<char>,
    differs: bool,
) -> bool {
    if differs && !(name == "class"@ || name == "style"@) && before.doc@.contains_key(el) {
        &&& after.events == before.events
        &&& after.doc.rewrites(
            &before.doc,
            el,
            crate::dom::attribute_written(before.doc@[el].data, name, value),
            crate::dom::attribute_signals(el, before.doc@[el].data, name),
        )
    } else {
        *after == *before
    }
}

/// Adds the value of the attribute `name` to the buffer that gathers it, if
/// one does. Returns whether the attribute is gathered.
pub fn gather(name: &str, value: &str, acc: &mut Accumulator) -> (gathered: bool)
    ensures
        gathered == (name@ == "class"@ || name@ == "style"@),
        final(acc).class@ == class_joined(name@, value@, old(acc).class@),
        final(acc).style@ == style_joined(name@, value@, old(acc).style@),
{
    if str_eq(name, "class") {
        join(&mut acc.class, " ", value);
        true
    } else if str_eq(name, "style") {
        join(&mut acc.style, ";", value);
        true
    } else {
        false
    }
}

/// Sets the attribute `name` of `el` to `value`, where `el` is live.
pub fn write_attribute(dom: &mut Dom, el: &Element, name: &str, value: &str)
    requires
        old(dom).wf(),
    ensures
        final(dom).events == old(dom).events,
        touches(&final(dom).doc, &old(dom).doc, el.0.0),
        old(dom).doc@.contains_key(el.0.0) ==> final(dom).doc.rewrites(
            &old(dom).doc,
            el.0.0,
            crate::dom::attribute_written(old(dom).doc@[el.0.0].data, name@, value@),
            crate::dom::attribute_signals(el.0.0, old(dom).doc@[el.0.0].data, name@),
        ),
        !old(dom).doc@.contains_key(el.0.0) ==> *final(dom) == *old(dom),
{
    if dom.doc.contains(el.0.0) {
        dom.set_attribute(el, name, value);
        assert(dom.doc@.dom() =~= old(dom).doc@.dom());
    }
}

impl<K: AttributeKey, V: AttributeValue> Attribute for Attr<K, V> {
    type State = AttrState;

    open spec fn shown_by(&self, state: &AttrState) -> bool {
        self.1.text() == state.value@
    }

    open spec fn built(&self, before: &Dom, after: &Dom, el: NodeId, state: &AttrState) -> bool {
        &&& state.el.0.0 == el
        &&& state.value@ == self.1.text()
        &&& attr_shown(before, after, el, K::KEY@, self.1.text(), true)
    }

    open spec fn rebuilt(&self, before: &Dom, after: &Dom, was: &AttrState, state: &AttrState) -> bool {
        &&& state.el == was.el
        &&& state.value@ == self.1.text()
        &&& self.1.text() == was.value@ ==> *state == *was
        &&& attr_shown(
            before,
            after,
            was.el.0.0,
            K::KEY@,
            self.1.text(),
            self.1.text() != was.value@,
        )
    }

    open spec fn markup(&self) -> Seq<char> {
        attr_markup(K::KEY@, self.1.text())
    }

    open spec fn class_text(&self, class: Seq<char>) -> Seq<char> {
        class_joined(K::KEY@, self.1.text(), class)
    }

    open spec fn style_text(&self, style: Seq<char>) -> Seq<char> {
        style_joined(K::KEY@, self.1.text(), style)
    }

    open spec fn inner_text(&self, inner: Seq<char>) -> Seq<char> {
        inner
    }

    open spec fn estimate(&self) -> usize {
        saturated(
            saturated(crate::strings::utf8_len(K::KEY@) as usize, 3),
            crate::strings::utf8_len(self.1.text()) as usize,
        )
    }

    fn html_len(&self) -> (len: usize) {
        let len: usize = {
            crate::strings::text_len(K::KEY).saturating_add(3).saturating_add(
                crate::strings::text_len(self.1.as_text()),
            )
        };
        assert(len == self.estimate());
        len
    }

    fn to_html(
        self,
        buf: &mut String,
        class: &mut String,
        style: &mut String,
        inner_html: &mut String,
    ) {
        let ghost start = buf@;
        let value = self.1.as_text();
        if str_eq(K::KEY, "class") {
            join(class, " ", value);
        } else if str_eq(K::KEY, "style") {
            join(style, ";", value);
        } else {
            buf.append(" ");
            buf.append(K::KEY);
            buf.append("=\"");
            let text = escape_attr(value);
            buf.append(text.as_str());
            buf.append("\"");
        }
        assert(buf@ =~= start + self.markup());
    }

    fn build(self, dom: &mut Dom, el: &Element, acc: &mut Accumulator) -> (state: AttrState) {
        let value = self.1.as_text();
        if !gather(K::KEY, value, acc) {
            write_attribute(dom, el, K::KEY, value);
        }
        AttrState { el: *el, value: String::from_str(value) }
    }

    fn rebuild(self, dom: &mut Dom, state: &mut AttrState, acc: &mut Accumulator) {
        let value = self.1.as_text();
        let gathered = gather(K::KEY, value, acc);
        if !str_eq(value, state.value.as_str()) {
            if !gathered {
                let el = state.el;
                write_attribute(dom, &el, K::KEY, value);
            }
            state.value = String::from_str(value);
        }
    }

    fn dry_resolve(&mut self) {
    }
}

impl Attribute for () {
    type State = ();

    open spec fn shown_by(&self, state: &()) -> bool {
        true
    }

    open spec fn built(&self, before: &Dom, after: &Dom, el: NodeId, state: &()) -> bool {
        *after == *before
    }

    open spec fn rebuilt(&self, before: &Dom, after: &Dom, was: &(), state: &()) -> bool {
        *after == *before
    }

    open spec fn markup(&self) -> Seq<char> {
        Seq::empty()
    }

    open spec fn class_text(&self, class: Seq<char>) -> Seq<char> {
        class
    }

    open spec fn style_text(&self, style: Seq<char>) -> Seq<char> {
        style
    }

    open spec fn inner_text(&self, inner: Seq<char>) -> Seq<char> {
        inner
    }

    open spec fn estimate(&self) -> usize {
        0
    }

    fn html_len(&self) -> (len: usize) {
        let len: usize = 0;
        assert(len == self.estimate());
        len
    }

    fn to_html(
        self,
        buf: &mut String,
        class: &mut String,
        style: &mut String,
        inner_html: &mut String,
    ) {
        assert(buf@ + Seq::<char>::empty() =~= buf@);
    }

    fn build(self, dom: &mut Dom, el: &Element, acc: &mut Accumulator) -> (state: ()) {
    }

    fn rebuild(self, dom: &mut Dom, state: &mut (), acc: &mut Accumulator) {
    }

    fn dry_resolve(&mut self) {
    }
}

impl<A: Attribute> Attribute for (A,) {
    type State = (A::State,);

    open spec fn shown_by(&self, state: &(A::State,)) -> bool {
        self.0.shown_by(&state.0)
    }

    open spec fn built(&self, before: &Dom, after: &Dom, el: NodeId, state: &(A::State,)) -> bool {
        self.0.built(before, after, el, &state.0)
    }

    open spec fn rebuilt(
        &self,
        before: &Dom,
        after: &Dom,
        was: &(A::State,),
        state: &(A::State,),
    ) -> bool {
        self.0.rebuilt(before, after, &was.0, &state.0)
    }

    open spec fn markup(&self) -> Seq<char> {
        self.0.markup()
    }

    open spec fn class_text(&self, class: Seq<char>) -> Seq<char> {
        self.0.class_text(class)
    }

    open spec fn style_text(&self, style: Seq<char>) -> Seq<char> {
        self.0.style_text(style)
    }

    open spec fn inner_text(&self, inner: Seq<char>) -> Seq<char> {
        self.0.inner_text(inner)
    }

    open spec fn estimate(&self) -> usize {
        self.0.estimate()
    }

    fn html_len(&self) -> (len: usize) {
        let len: usize = self.0.html_len();
        assert(len == self.estimate());
        len
    }

    fn to_html(
        self,
        buf: &mut String,
        class: &mut String,
        style: &mut String,
        inner_html: &mut String,
    ) {
        self.0.to_html(buf, class, style, inner_html);
    }

    fn build(self, dom: &mut Dom, el: &Element, acc: &mut Accumulator) -> (state: (A::State,)) {
        (self.0.build(dom, el, acc),)
    }

    fn rebuild(self, dom: &mut Dom, state: &mut (A::State,), acc: &mut Accumulator) {
        self.0.rebuild(dom, &mut state.0, acc);
    }

    fn dry_resolve(&mut self) {
        self.0.dry_resolve();
    }
}

impl<A: Attribute, B: Attribute> Attribute for (A, B) {
    type State = (A::State, B::State);

    open spec fn shown_by(&self, state: &(A::State, B::State)) -> bool {
        self.0.shown_by(&state.0) && self.1.shown_by(&state.1)
    }

    open spec fn built(
        &self,
        before: &Dom,
        after: &Dom,
        el: NodeId,
        state: &(A::State, B::State),
    ) -> bool {
        exists|middle: Dom| #[trigger]
            self.0.built(before, &middle, el, &state.0) && self.1.built(
                &middle,
                after,
                el,
                &state.1,
            )
    }

    open spec fn rebuilt(
        &self,
        before: &Dom,
        after: &Dom,
        was: &(A::State, B::State),
        state: &(A::State, B::State),
    ) -> bool {
        exists|middle: Dom| #[trigger]
            self.0.rebuilt(before, &middle, &was.0, &state.0) && self.1.rebuilt(
                &middle,
                after,
                &was.1,
                &state.1,
            )
    }

    open spec fn markup(&self) -> Seq<char> {
        self.0.markup() + self.1.markup()
    }

    open spec fn class_text(&self, class: Seq<char>) -> Seq<char> {
        self.1.class_text(self.0.class_text(class))
    }

    open spec fn style_text(&self, style: Seq<char>) -> Seq<char> {
        self.1.style_text(self.0.style_text(style))
    }

    open spec fn inner_text(&self, inner: Seq<char>) -> Seq<char> {
        self.1.inner_text(self.0.inner_text(inner))
    }

    open spec fn estimate(&self) -> usize {
        saturated(self.0.estimate(), self.1.estimate())
    }

    fn html_len(&self) -> (len: usize) {
        let len: usize = self.0.html_len().saturating_add(self.1.html_len());
        assert(len == self.estimate());
        len
    }

    fn to_html(
        self,
        buf: &mut String,
        class: &mut String,
        style: &mut String,
        inner_html: &mut String,
    ) {
        let ghost start = buf@;
        let ghost whole = self.markup();
        self.0.to_html(buf, class, style, inner_html);
        self.1.to_html(buf, class, style, inner_html);
        assert(buf@ =~= start + whole);
    }

    fn build(self, dom: &mut Dom, el: &Element, acc: &mut Accumulator) -> (state: (
        A::State,
        B::State,
    )) {
        let first = self.0.build(dom, el, acc);
        let ghost middle = *dom;
        let second = self.1.build(dom, el, acc);
        proof {
            assert(self.0.built(old(dom), &middle, el.0.0, &first) && self.1.built(
                &middle,
                dom,
                el.0.0,
                &second,
            ));
            lemma_touches_trans(&dom.doc, &middle.doc, &old(dom).doc, el.0.0);
            vstd::map_lib::lemma_submap_of_trans(old(dom).events@, middle.events@, dom.events@);
        }
        (first, second)
    }

    fn rebuild(self, dom: &mut Dom, state: &mut (A::State, B::State), acc: &mut Accumulator) {
        self.0.rebuild(dom, &mut state.0, acc);
        let ghost middle = *dom;
        self.1.rebuild(dom, &mut state.1, acc);
        proof {
            assert(self.0.rebuilt(old(dom), &middle, &old(state).0, &state.0) && self.1.rebuilt(
                &middle,
                dom,
                &old(state).1,
                &state.1,
            ));
            lemma_same_shape_trans(&dom.doc, &middle.doc, &old(dom).doc);
        }
    }

    fn dry_resolve(&mut self) {
        self.0.dry_resolve();
        self.1.dry_resolve();
    }
}


impl Release for AttrState {
    open spec fn released(&self, before: &Dom, after: &Dom, state: &AttrState) -> bool {
        *after == *before && *state == *self
    }

    fn release(&mut self, dom: &mut Dom) {
    }
}

impl Release for () {
    open spec fn released(&self, before: &Dom, after: &Dom, state: &()) -> bool {
        *after == *before
    }

    fn release(&mut self, dom: &mut Dom) {
    }
}

impl<A: Release> Release for (A,) {
    open spec fn released(&self, before: &Dom, after: &Dom, state: &(A,)) -> bool {
        self.0.released(before, after, &state.0)
    }

    fn release(&mut self, dom: &mut Dom) {
        self.0.release(dom);
    }
}

impl<A: Release, B: Release> Release for (A, B) {
    open spec fn released(&self, before: &Dom, after: &Dom, state: &(A, B)) -> bool {
        exists|middle: Dom| #[trigger]
            self.0.released(before, &middle, &state.0) && self.1.released(&middle, after, &state.1)
    }

    fn release(&mut self, dom: &mut Dom) {
        self.0.release(dom);
        let ghost middle = *dom;
        self.1.release(dom);
        proof {
            vstd::map_lib::lemma_submap_of_trans(dom.events@, middle.events@, old(dom).events@);
            assert(old(self).0.released(old(dom), &middle, &self.0) && old(self).1.released(
                &middle,
                dom,
                &self.1,
            ));
        }
    }
}


impl<A: Attribute, B: Attribute, C: Attribute> Attribute for (A, B, C) {
    type State = (A::State, B::State, C::State);

    open spec fn shown_by(&self, state: &(A::State, B::State, C::State)) -> bool {
        self.0.shown_by(&state.0) && self.1.shown_by(&state.1) && self.2.shown_by(&state.2)
    }

    open spec fn built(
        &self,
        before: &Dom,
        after: &Dom,
        el: NodeId,
        state: &(A::State, B::State, C::State),
    ) -> bool {
        exists|one: Dom, two: Dom|
            #![trigger self.0.built(before, &one, el, &state.0), self.2.built(&two, after, el, &state.2)]
            self.0.built(before, &one, el, &state.0) && self.1.built(&one, &two, el, &state.1)
                && self.2.built(&two, after, el, &state.2)
    }

    open spec fn rebuilt(
        &self,
        before: &Dom,
        after: &Dom,
        was: &(A::State, B::State, C::State),
        state: &(A::State, B::State, C::State),
    ) -> bool {
        exists|one: Dom, two: Dom|
            #![trigger self.0.rebuilt(before, &one, &was.0, &state.0), self.2.rebuilt(&two, after, &was.2, &state.2)]
            self.0.rebuilt(before, &one, &was.0, &state.0) && self.1.rebuilt(
                &one,
                &two,
                &was.1,
                &state.1,
            ) && self.2.rebuilt(&two, after, &was.2, &state.2)
    }

    open spec fn markup(&self) -> Seq<char> {
        self.0.markup() + self.1.markup() + self.2.markup()
    }

    open spec fn class_text(&self, class: Seq<char>) -> Seq<char> {
        self.2.class_text(self.1.class_text(self.0.class_text(class)))
    }

    open spec fn style_text(&self, style: Seq<char>) -> Seq<char> {
        self.2.style_text(self.1.style_text(self.0.style_text(style)))
    }

    open spec fn inner_text(&self, inner: Seq<char>) -> Seq<char> {
        self.2.inner_text(self.1.inner_text(self.0.inner_text(inner)))
    }

    open spec fn estimate(&self) -> usize {
        saturated(saturated(self.0.estimate(), self.1.estimate()), self.2.estimate())
    }

    fn html_len(&self) -> (len: usize) {
        let len: usize = self.0.html_len().saturating_add(self.1.html_len()).saturating_add(self.2.html_len());
        assert(len == self.estimate());
        len
    }

    fn to_html(
        self,
        buf: &mut String,
        class: &mut String,
        style: &mut String,
        inner_html: &mut String,
    ) {
        let ghost start = buf@;
        let ghost whole = self.markup();
        self.0.to_html(buf, class, style, inner_html);
        self.1.to_html(buf, class, style, inner_html);
        self.2.to_html(buf, class, style, inner_html);
        assert(buf@ =~= start + whole);
    }

    fn build(self, dom: &mut Dom, el: &Element, acc: &mut Accumulator) -> (state: (
        A::State,
        B::State,
        C::State,
    )) {
        let first = self.0.build(dom, el, acc);
        let ghost one = *dom;
        let second = self.1.build(dom, el, acc);
        let ghost two = *dom;
        let third = self.2.build(dom, el, acc);
        proof {
            assert(self.0.built(old(dom), &one, el.0.0, &first) && self.1.built(
                &one,
                &two,
                el.0.0,
                &second,
            ) && self.2.built(&two, dom, el.0.0, &third));
            lemma_touches_trans(&two.doc, &one.doc, &old(dom).doc, el.0.0);
            lemma_touches_trans(&dom.doc, &two.doc, &old(dom).doc, el.0.0);
            vstd::map_lib::lemma_submap_of_trans(old(dom).events@, one.events@, two.events@);
            vstd::map_lib::lemma_submap_of_trans(old(dom).events@, two.events@, dom.events@);
        }
        (first, second, third)
    }

    fn rebuild(
        self,
        dom: &mut Dom,
        state: &mut (A::State, B::State, C::State),
        acc: &mut Accumulator,
    ) {
        self.0.rebuild(dom, &mut state.0, acc);
        let ghost one = *dom;
        self.1.rebuild(dom, &mut state.1, acc);
        let ghost two = *dom;
        self.2.rebuild(dom, &mut state.2, acc);
        proof {
            assert(self.0.rebuilt(old(dom), &one, &old(state).0, &state.0) && self.1.rebuilt(
                &one,
                &two,
                &old(state).1,
                &state.1,
            ) && self.2.rebuilt(&two, dom, &old(state).2, &state.2));
            lemma_same_shape_trans(&two.doc, &one.doc, &old(dom).doc);
            lemma_same_shape_trans(&dom.doc, &two.doc, &old(dom).doc);
        }
    }

    fn dry_resolve(&mut self) {
        self.0.dry_resolve();
        self.1.dry_resolve();
        self.2.dry_resolve();
    }
}

impl<A: Release, B: Release, C: Release> Release for (A, B, C) {
    open spec fn released(&self, before: &Dom, after: &Dom, state: &(A, B, C)) -> bool {
        exists|one: Dom, two: Dom|
            #![trigger self.0.released(before, &one, &state.0), self.2.released(&two, after, &state.2)]
            self.0.released(before, &one, &state.0) && self.1.released(&one, &two, &state.1)
                && self.2.released(&two, after, &state.2)
    }

    fn release(&mut self, dom: &mut Dom) {
        self.0.release(dom);
        let ghost one = *dom;
        self.1.release(dom);
        let ghost two = *dom;
        self.2.release(dom);
        proof {
            assert(old(self).0.released(old(dom), &one, &self.0) && old(self).1.released(
                &one,
                &two,
                &self.1,
            ) && old(self).2.released(&two, dom, &self.2));
            vstd::map_lib::lemma_submap_of_trans(two.events@, one.events@, old(dom).events@);
            vstd::map_lib::lemma_submap_of_trans(dom.events@, two.events@, old(dom).events@);
        }
    }
}

impl<K: AttributeKey, V: AttributeValue, NewAttr: Attribute> NextAttribute<NewAttr> for Attr<K, V> {
    type Output = (Attr<K, V>, NewAttr);

    open spec fn with_attr(self, new_attr: NewAttr) -> (Attr<K, V>, NewAttr) {
        (self, new_attr)
    }

    fn add_any_attr(self, new_attr: NewAttr) -> (output: (Attr<K, V>, NewAttr)) {
        (self, new_attr)
    }
}

impl<NewAttr: Attribute> NextAttribute<NewAttr> for () {
    type Output = (NewAttr,);

    open spec fn with_attr(self, new_attr: NewAttr) -> (NewAttr,) {
        (new_attr,)
    }

    fn add_any_attr(self, new_attr: NewAttr) -> (output: (NewAttr,)) {
        (new_attr,)
    }
}

impl<A: Attribute, NewAttr: Attribute> NextAttribute<NewAttr> for (A,) {
    type Output = (A, NewAttr);

    open spec fn with_attr(self, new_attr: NewAttr) -> (A, NewAttr) {
        (self.0, new_attr)
    }

    fn add_any_attr(self, new_attr: NewAttr) -> (output: (A, NewAttr)) {
        (self.0, new_attr)
    }
}

impl<A: Attribute, B: Attribute, NewAttr: Attribute> NextAttribute<NewAttr> for (A, B) {
    type Output = (A, B, NewAttr);

    open spec fn with_attr(self, new_attr: NewAttr) -> (A, B, NewAttr) {
        (self.0, self.1, new_attr)
    }

    fn add_any_attr(self, new_attr: NewAttr) -> (output: (A, B, NewAttr)) {
        (self.0, self.1, new_attr)
    }
}

impl<K: AttributeKey + Clone, V: AttributeValue + Clone> Shareable for Attr<K, V> {
    type Cloneable = Attr<K, V>;

    type CloneableOwned = Attr<K, String>;

    fn into_cloneable(self) -> (shared: Attr<K, V>) {
        self
    }

    fn into_cloneable_owned(self) -> (shared: Attr<K, String>) {
        let value = String::from_str(self.1.as_text());
        Attr(self.0, value)
    }
}

} // verus!
