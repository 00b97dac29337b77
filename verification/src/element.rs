//! Elements as views: an element with its attributes and its children.
//!
//! Building an element creates its node, writes its attributes in one pass,
//! and builds its children into it. The retained state holds the element,
//! the states of attributes and children, and the `class` and `style` texts
//! that the pass gathered, so that a rebuild writes them only when they
//! change.
use crate::arena::{Arena, DataView, NodeId, WidgetView, ROOT};
use crate::attribute::{
    attributes_to_html, element_name, gathered_markup, lemma_same_shape_trans,
    lemma_touches_trans, same_shape,
    touches, write_attribute, Accumulator, Attr, Attribute, AttributeValue, NextAttribute, Release,
    Style,
};
use crate::dom::{Element, Node};
use crate::event::{on, EventDescriptor, On};
use crate::registry::Callback;
use crate::renderer::Dom;
use crate::strings::text_len;
use crate::text::str_eq;
use crate::tuples::NextTuple;
use crate::view::{
    insert_before_node, node_anchor, node_unmounted, saturated, unmount_node, Anchor, IntoRender,
    Mountable, Position, Render, RenderHtml,
};
use vstd::prelude::*;
use vstd::string::*;

verus! {

/// The kind of an element.
pub trait ElementType {
    /// The native widget that the element stands for.
    type Output;

    /// The tag of the element.
    const TAG: &'static str;

    /// Whether the element closes itself, and so has no children.
    const SELF_CLOSING: bool;

    /// Whether the text of the children is escaped in markup. It is, except
    /// in elements like `<style>` that hold another language.
    const ESCAPE_CHILDREN: bool;

    /// The namespace of the element, where it is not that of HTML.
    const NAMESPACE: Option<&'static str>;

    /// The characters of the tag of this element.
    spec fn tag_name(&self) -> Seq<char>;

    /// The tag of this element.
    fn tag(&self) -> (tag: &str)
        ensures
            tag@ == self.tag_name(),
    ;
}

/// An element kind that takes children.
pub trait ElementWithChildren {

}

/// A view that knows the kind of element that it is.
pub trait HasElementType {
    /// The native widget that the element stands for.
    type ElementType;
}

/// An element that can take one more child.
pub trait ElementChild<NewChild: IntoRender>: Sized {
    /// The element with the child added.
    type Output;

    /// What the element is with `child` as its last child.
    spec fn with_child(self, child: NewChild) -> Self::Output;

    /// Adds `child` as the last child of the element.
    fn child(self, child: NewChild) -> (output: Self::Output)
        ensures
            output == self.with_child(child),
    ;
}

/// A view that can take one more attribute.
pub trait AddAnyAttr<NewAttr: Attribute>: Sized {
    /// The view with the attribute added.
    type Output;

    /// What the view is with `attr` as its last attribute.
    spec fn with_any_attr(self, attr: NewAttr) -> Self::Output;

    /// Adds `attr` as the last attribute of the view.
    fn add_any_attr(self, attr: NewAttr) -> (output: Self::Output)
        ensures
            output == self.with_any_attr(attr),
    ;
}

/// An element of the kind `E` with the attributes `At` and the children
/// `Ch`.
#[derive(Debug, Clone, Copy)]
pub struct HtmlElement<E, At, Ch> {
    pub tag: E,
    pub attributes: At,
    pub children: Ch,
}

/// The retained view state of an element.
pub struct ElementState<At, Ch> {
    pub el: Element,
    pub attrs: At,
    pub children: Option<Ch>,
    /// The class names that the last pass over the attributes gathered.
    pub class: String,
    /// The style declarations that the last pass over the attributes
    /// gathered.
    pub style: String,
}

impl<E, At, Ch> HtmlElement<E, At, Ch> {
    /// The children of the element.
    pub fn children(&self) -> (children: &Ch)
        ensures
            *children == self.children,
    {
        &self.children
    }

    /// The children of the element, for changing them.
    pub fn children_mut(&mut self) -> (children: &mut Ch)
        ensures
            *children == old(self).children,
            *final(self) == (HtmlElement {
                tag: old(self).tag,
                attributes: old(self).attributes,
                children: *final(children),
            }),
    {
        &mut self.children
    }

    /// The attributes of the element.
    pub fn attributes(&self) -> (attributes: &At)
        ensures
            *attributes == self.attributes,
    {
        &self.attributes
    }

    /// The attributes of the element, for changing them.
    pub fn attributes_mut(&mut self) -> (attributes: &mut At)
        ensures
            *attributes == old(self).attributes,
            *final(self) == (HtmlElement {
                tag: old(self).tag,
                attributes: *final(attributes),
                children: old(self).children,
            }),
    {
        &mut self.attributes
    }

    /// The element with `value` as one more part of its `style`.
    pub fn style<V: AttributeValue>(self, value: V) -> (element: HtmlElement<
        E,
        <At as NextTuple<Attr<Style, V>>>::Output,
        Ch,
    >) where At: NextTuple<Attr<Style, V>>
        ensures
            element == (HtmlElement {
                tag: self.tag,
                attributes: self.attributes.appended(Attr(Style, value)),
                children: self.children,
            }),
    {
        let HtmlElement { tag, attributes, children } = self;
        HtmlElement { tag, attributes: attributes.next_tuple(style(value)), children }
    }

    /// The element with the callback `cb` attached for the event `event`.
    pub fn on<EV: EventDescriptor>(self, event: EV, cb: Callback) -> (element: HtmlElement<
        E,
        <At as NextTuple<On<EV>>>::Output,
        Ch,
    >) where At: NextTuple<On<EV>>
        ensures
            element == (HtmlElement {
                tag: self.tag,
                attributes: self.attributes.appended(On { event, cb }),
                children: self.children,
            }),
    {
        let HtmlElement { tag, attributes, children } = self;
        HtmlElement { tag, attributes: attributes.next_tuple(on(event, cb)), children }
    }
}

/// The `style` attribute with the value `value`.
pub fn style<V: AttributeValue>(value: V) -> (attr: Attr<Style, V>)
    ensures
        attr == Attr(Style, value),
{
    Attr(Style, value)
}

impl<E: ElementType, At, Ch> HasElementType for HtmlElement<E, At, Ch> {
    type ElementType = E::Output;
}

impl<E: ElementWithChildren, At, Ch: NextTuple<NewChild::Output>, NewChild: IntoRender> ElementChild<
    NewChild,
> for HtmlElement<E, At, Ch> {
    type Output = HtmlElement<E, At, <Ch as NextTuple<NewChild::Output>>::Output>;

    open spec fn with_child(self, child: NewChild) -> Self::Output {
        HtmlElement {
            tag: self.tag,
            attributes: self.attributes,
            children: self.children.appended(child.rendered()),
        }
    }

    fn child(self, child: NewChild) -> (output: Self::Output) {
        let HtmlElement { tag, attributes, children } = self;
        HtmlElement { tag, attributes, children: children.next_tuple(child.into_render()) }
    }
}

impl<E, At: NextAttribute<NewAttr>, Ch, NewAttr: Attribute> AddAnyAttr<NewAttr> for HtmlElement<
    E,
    At,
    Ch,
> {
    type Output = HtmlElement<E, <At as NextAttribute<NewAttr>>::Output, Ch>;

    open spec fn with_any_attr(self, attr: NewAttr) -> Self::Output {
        HtmlElement {
            tag: self.tag,
            attributes: self.attributes.with_attr(attr),
            children: self.children,
        }
    }

    fn add_any_attr(self, attr: NewAttr) -> (output: Self::Output) {
        let HtmlElement { tag, attributes, children } = self;
        HtmlElement { tag, attributes: attributes.add_any_attr(attr), children }
    }
}


/// The strings of an optional string that lives as long as the program.
fn opt_str(namespace: Option<&'static str>) -> (r: Option<&str>)
    ensures
        crate::dom::opt_text(r) == crate::dom::opt_text(namespace),
{
    match namespace {
        Some(n) => Some(n),
        None => None,
    }
}

/// What bringing the text `text`, gathered for the attribute `name`, onto
/// the element `el` does, where `was` is what the element shows: a text
/// that differs is written onto a live element, and an empty one removes the
/// attribute; else nothing changes.
pub open spec fn flushed(
    before: &Dom,
    after: &Dom,
    el: NodeId,
    name: Seq<char>,
    text: Seq<char>,
    was: Seq<char>,
) -> bool {
    if text != was && before.doc@.contains_key(el) {
        &&& after.events == before.events
        &&& after.doc.rewrites(
            &before.doc,
            el,
            if text.len() == 0 {
                crate::dom::attribute_removed(before.doc@[el].data, name)
            } else {
                crate::dom::attribute_written(before.doc@[el].data, name, text)
            },
            crate::dom::attribute_signals(el, before.doc@[el].data, name),
        )
    } else {
        *after == *before
    }
}

/// Brings the text `text`, gathered for the attribute `name`, onto the
/// element `el`, where it is not what `shown` says the element shows: a text
/// is written, and an empty text removes the attribute.
pub fn flush(dom: &mut Dom, el: &Element, name: &str, text: &str, shown: &mut String)
    requires
        old(dom).wf(),
    ensures
        final(dom).events == old(dom).events,
        touches(&final(dom).doc, &old(dom).doc, el.0.0),
        final(shown)@ == text@,
        flushed(old(dom), final(dom), el.0.0, name@, text@, old(shown)@),
        text@ == old(shown)@ ==> *final(dom) == *old(dom) && *final(shown) == *old(shown),
        text@ != old(shown)@ && old(dom).doc@.contains_key(el.0.0) ==> final(dom).doc.rewrites(
            &old(dom).doc,
            el.0.0,
            if text@.len() == 0 {
                crate::dom::attribute_removed(old(dom).doc@[el.0.0].data, name@)
            } else {
                crate::dom::attribute_written(old(dom).doc@[el.0.0].data, name@, text@)
            },
            crate::dom::attribute_signals(el.0.0, old(dom).doc@[el.0.0].data, name@),
        ),
        text@ != old(shown)@ && !old(dom).doc@.contains_key(el.0.0) ==> *final(dom) == *old(dom),
{
    if !str_eq(text, shown.as_str()) {
        if dom.doc.contains(el.0.0) {
            if text.is_empty() {
                dom.remove_attribute(el, name);
            } else {
                dom.set_attribute(el, name, text);
            }
            assert(dom.doc@.dom() =~= old(dom).doc@.dom());
        }
        *shown = String::from_str(text);
    }
}

/// What the attribute list of an element holds for `class` and `style` once
/// the texts gathered for them have been written, `class` first.
proof fn lemma_gathered_written(
    written: DataView,
    classed: DataView,
    styled: DataView,
    class: Seq<char>,
    style: Seq<char>,
)
    requires
        written matches DataView::Element { attrs, .. } && crate::arena::attr_names(
            attrs,
        ).no_duplicates(),
        classed == (if class.len() == 0 {
            written
        } else {
            crate::dom::attribute_written(written, "class"@, class)
        }),
        styled == (if style.len() == 0 {
            classed
        } else {
            crate::dom::attribute_written(classed, "style"@, style)
        }),
    ensures
        element_name(styled) == element_name(written),
        class.len() > 0 ==> crate::arena::attr_value(crate::arena::attrs_of(styled), "class"@)
            == Some(class),
        style.len() > 0 ==> crate::arena::attr_value(crate::arena::attrs_of(styled), "style"@)
            == Some(style),
{
    reveal_strlit("class");
    reveal_strlit("style");
    reveal_strlit("checked");
    reveal_strlit("value");
    assert("class"@ != "style"@) by {
        assert("class"@[0] != "style"@[0]);
    }
    assert("class"@ != "checked"@) by {
        assert("class"@.len() != "checked"@.len());
    }
    assert("style"@ != "checked"@) by {
        assert("style"@.len() != "checked"@.len());
    }
    assert("class"@ != "value"@) by {
        assert("class"@[0] != "value"@[0]);
    }
    assert("style"@ != "value"@) by {
        assert("style"@[0] != "value"@[0]);
    }
    crate::arena::lemma_with_attr(crate::arena::attrs_of(written), "class"@, class);
    crate::arena::lemma_with_attr(crate::arena::attrs_of(classed), "style"@, style);
}

impl<E: ElementType, At: Attribute, Ch: Render> HtmlElement<E, At, Ch> {
    /// The steps of building the element, from the renderer `before` to the
    /// renderer `after`: the element is made; its attributes are written,
    /// which leaves `written`; the gathered `class` and `style` are written,
    /// which leaves `classed` and `styled`; and, unless the element closes
    /// itself, its children are built, which leaves `grown`, and put under
    /// it.
    pub open spec fn build_steps(
        &self,
        before: &Dom,
        made: &Dom,
        written: &Dom,
        classed: &Dom,
        styled: &Dom,
        grown: &Dom,
        after: &Dom,
        state: &ElementState<At::State, Ch::State>,
    ) -> bool {
        let el = state.el.0.0;
        &&& made.events == before.events
        &&& made.doc.creates(
            &before.doc,
            el,
            DataView::Element {
                tag: self.tag.tag_name(),
                namespace: crate::dom::opt_text(E::NAMESPACE),
                attrs: Seq::empty(),
                widget: WidgetView::Plain,
            },
        )
        &&& self.attributes.built(made, written, el, &state.attrs)
        &&& state.class@ == self.attributes.class_text(Seq::empty())
        &&& state.style@ == self.attributes.style_text(Seq::empty())
        &&& flushed(written, classed, el, "class"@, state.class@, Seq::empty())
        &&& flushed(classed, styled, el, "style"@, state.style@, Seq::empty())
        &&& if E::SELF_CLOSING {
            state.children is None && *grown == *styled && *after == *styled
        } else {
            &&& state.children is Some
            &&& self.children.built(styled, grown, &state.children->0)
            &&& after.events == grown.events
            &&& after.doc.adopts(
                &grown.doc,
                el,
                grown.doc@[el].children.len() as int,
                state.children->0.roots(),
            )
        }
    }

    /// The steps of rebuilding the element, from the renderer `before` to
    /// the renderer `after`: its attributes are written anew, which leaves
    /// `attributed`; the gathered `class` and `style` are written where
    /// they changed, which leaves `classed` and `styled`; and its children
    /// are rebuilt.
    pub open spec fn rebuild_steps(
        &self,
        before: &Dom,
        attributed: &Dom,
        classed: &Dom,
        styled: &Dom,
        after: &Dom,
        was: &ElementState<At::State, Ch::State>,
        state: &ElementState<At::State, Ch::State>,
    ) -> bool {
        let el = was.el.0.0;
        &&& state.el == was.el
        &&& self.attributes.rebuilt(before, attributed, &was.attrs, &state.attrs)
        &&& state.class@ == self.attributes.class_text(Seq::empty())
        &&& state.style@ == self.attributes.style_text(Seq::empty())
        &&& flushed(attributed, classed, el, "class"@, state.class@, was.class@)
        &&& flushed(classed, styled, el, "style"@, state.style@, was.style@)
        &&& match (was.children, state.children) {
            (Some(w), Some(c)) => self.children.rebuilt(styled, after, &w, &c),
            (None, None) => *after == *styled,
            _ => false,
        }
    }
}

impl<E: ElementType, At: Attribute, Ch: Render> Render for HtmlElement<E, At, Ch> {
    type State = ElementState<At::State, Ch::State>;

    open spec fn built(
        &self,
        before: &Dom,
        after: &Dom,
        state: &ElementState<At::State, Ch::State>,
    ) -> bool {
        exists|made: Dom, written: Dom, classed: Dom, styled: Dom, grown: Dom| #[trigger]
            self.build_steps(before, &made, &written, &classed, &styled, &grown, after, state)
    }

    open spec fn rebuilt(
        &self,
        before: &Dom,
        after: &Dom,
        was: &ElementState<At::State, Ch::State>,
        state: &ElementState<At::State, Ch::State>,
    ) -> bool {
        exists|attributed: Dom, classed: Dom, styled: Dom| #[trigger]
            self.rebuild_steps(before, &attributed, &classed, &styled, after, was, state)
    }

    open spec fn shown_by(&self, state: &ElementState<At::State, Ch::State>) -> bool {
        &&& self.attributes.shown_by(&state.attrs)
        &&& state.class@ == self.attributes.class_text(Seq::empty())
        &&& state.style@ == self.attributes.style_text(Seq::empty())
        &&& state.children matches Some(children) ==> self.children.shown_by(&children)
    }

    fn build(self, dom: &mut Dom) -> (state: ElementState<At::State, Ch::State>)
        ensures
            state.children is Some <==> !E::SELF_CLOSING,
            element_name(final(dom).doc@[state.el.0.0].data) == Some(
                (self.tag.tag_name(), crate::dom::opt_text(E::NAMESPACE)),
            ),
            final(dom).doc@[state.el.0.0].children == (match state.children {
                Some(children) => children.roots(),
                None => Seq::empty(),
            }),
            state.children matches Some(children) ==> forall|k: int|
                #![trigger children.roots()[k]]
                0 <= k < children.roots().len() ==> final(dom).doc@[children.roots()[k]].parent
                    == Some(state.el.0.0),
            state.class@.len() > 0 ==> crate::arena::attr_value(
                crate::arena::attrs_of(final(dom).doc@[state.el.0.0].data),
                "class"@,
            ) == Some(state.class@),
            state.style@.len() > 0 ==> crate::arena::attr_value(
                crate::arena::attrs_of(final(dom).doc@[state.el.0.0].data),
                "style"@,
            ) == Some(state.style@),
    {
        let el = dom.create_element(self.tag.tag(), opt_str(E::NAMESPACE));
        let ghost made = *dom;
        let mut acc = Accumulator::new();
        let attrs = self.attributes.build(dom, &el, &mut acc);
        let ghost written = *dom;
        let mut class = String::new();
        let mut style = String::new();
        flush(dom, &el, "class", acc.class.as_str(), &mut class);
        let ghost classed = *dom;
        flush(dom, &el, "style", acc.style.as_str(), &mut style);
        let ghost styled = *dom;
        proof {
            lemma_touches_trans(&classed.doc, &written.doc, &made.doc, el.0.0);
            lemma_touches_trans(&styled.doc, &classed.doc, &made.doc, el.0.0);
            styled.doc.lemma_new_node_written(
                &made.doc,
                &old(dom).doc,
                el.0.0,
                made.doc@[el.0.0].data,
            );
            vstd::map_lib::lemma_submap_of_trans(old(dom).events@, made.events@, written.events@);
            if acc.class@.len() == 0 {
                assert(acc.class@ =~= Seq::<char>::empty());
            }
            if acc.style@.len() == 0 {
                assert(acc.style@ =~= Seq::<char>::empty());
            }
            lemma_gathered_written(
                written.doc@[el.0.0].data,
                classed.doc@[el.0.0].data,
                styled.doc@[el.0.0].data,
                class@,
                style@,
            );
        }
        let ghost mut grown = styled;
        let children = if E::SELF_CLOSING {
            None
        } else {
            let mut children = self.children.build(dom);
            let ghost built = *dom;
            proof {
                grown = built;
                built.doc.lemma_new_nodes_adoptable(&styled.doc, children.roots(), el.0.0);
            }
            children.mount(dom, &el, None);
            proof {
                dom.doc.lemma_element_built(
                    &built.doc,
                    &styled.doc,
                    &old(dom).doc,
                    el.0.0,
                    built.doc@[el.0.0].children.len() as int,
                    children.roots(),
                );
                dom.doc.lemma_mounted(&built.doc, &styled.doc, el.0.0, children.roots());
                assert(Seq::<NodeId>::empty() + children.roots() =~= children.roots());
                vstd::map_lib::lemma_submap_of_trans(
                    old(dom).events@,
                    styled.events@,
                    built.events@,
                );
            }
            Some(children)
        };
        let state = ElementState { el, attrs, children, class, style };
        assert(state.roots() =~= seq![el.0.0]);
        assert(self.build_steps(
            old(dom),
            &made,
            &written,
            &classed,
            &styled,
            &grown,
            dom,
            &state,
        ));
        state
    }

    fn rebuild(self, dom: &mut Dom, state: &mut ElementState<At::State, Ch::State>)
        ensures
            final(state).el == old(state).el,
            final(state).children is Some <==> old(state).children is Some,
    {
        let mut acc = Accumulator::new();
        let el = state.el;
        self.attributes.rebuild(dom, &mut state.attrs, &mut acc);
        let ghost attributed = *dom;
        flush(dom, &el, "class", acc.class.as_str(), &mut state.class);
        let ghost classed = *dom;
        flush(dom, &el, "style", acc.style.as_str(), &mut state.style);
        let ghost styled = *dom;
        match &mut state.children {
            Some(children) => {
                self.children.rebuild(dom, children);
            },
            None => {},
        }
        assert(self.rebuild_steps(
            old(dom),
            &attributed,
            &classed,
            &styled,
            dom,
            old(state),
            state,
        ));
    }
}

impl<At: Release, Ch: Mountable> ElementState<At, Ch> {
    /// The steps of releasing the state of an element, from the renderer
    /// `before` to the renderer `after`: its attributes are released, which
    /// leaves `middle`, and then its children are.
    pub open spec fn release_steps(
        &self,
        before: &Dom,
        middle: &Dom,
        after: &Dom,
        state: &Self,
    ) -> bool {
        &&& state.el == self.el
        &&& state.class == self.class
        &&& state.style == self.style
        &&& self.attrs.released(before, middle, &state.attrs)
        &&& match (self.children, state.children) {
            (Some(w), Some(c)) => w.released(middle, after, &c),
            (None, None) => *after == *middle,
            _ => false,
        }
    }
}

impl<At: Release, Ch: Mountable> Mountable for ElementState<At, Ch> {
    open spec fn roots(&self) -> Seq<NodeId> {
        seq![self.el.0.0]
    }

    open spec fn anchor(&self, doc: &Arena) -> Option<NodeId> {
        node_anchor(doc, self.el.0.0)
    }

    proof fn lemma_anchor(&self, doc: &Arena) {
    }

    open spec fn released(&self, before: &Dom, after: &Dom, state: &Self) -> bool {
        exists|middle: Dom| #[trigger] self.release_steps(before, &middle, after, state)
    }

    open spec fn unmounted(&self, before: &Dom, after: &Dom, state: &Self) -> bool {
        exists|middle: Dom| #[trigger]
            self.released(before, &middle, state) && node_unmounted(&middle, after, self.el.0.0)
    }

    fn release(&mut self, dom: &mut Dom) {
        self.attrs.release(dom);
        let ghost middle = *dom;
        match &mut self.children {
            Some(children) => {
                children.release(dom);
            },
            None => {},
        }
        proof {
            vstd::map_lib::lemma_submap_of_trans(dom.events@, middle.events@, old(dom).events@);
            assert(old(self).release_steps(old(dom), &middle, dom, self));
        }
    }

    fn unmount(&mut self, dom: &mut Dom) {
        assert(self.roots()[0] == self.el.0.0);
        self.release(dom);
        let ghost middle = *dom;
        unmount_node(dom, self.el.0.0);
        assert(old(self).released(old(dom), &middle, self) && node_unmounted(
            &middle,
            dom,
            old(self).el.0.0,
        ));
    }

    fn mount(&mut self, dom: &mut Dom, parent: &Element, marker: Option<&Node>) {
        let node = self.el.0;
        dom.insert_node(parent, &node, marker);
    }
}

impl<At: Release, Ch: Mountable> Anchor for ElementState<At, Ch> {
    fn insert_before_this<M: Mountable>(&self, dom: &mut Dom, child: &mut M) -> (inserted: bool) {
        insert_before_node(dom, self.el.0.0, child)
    }
}

/// The markup between the tags of an element that is not self-closing: the
/// inner markup that its attributes set, or else that of its children.
pub open spec fn content_html(inner: Seq<char>, exists: bool, children: Seq<char>) -> Seq<char> {
    if inner.len() > 0 {
        inner
    } else if exists {
        children
    } else {
        Seq::empty()
    }
}

impl<E: ElementType, At: Attribute, Ch: RenderHtml> RenderHtml for HtmlElement<E, At, Ch> {
    const EXISTS: bool = true;

    open spec fn html(&self, position: Position, escape: bool, mark_branches: bool) -> Seq<char> {
        "<"@ + self.tag.tag_name() + self.attributes.markup() + gathered_markup(
            "class"@,
            self.attributes.class_text(Seq::empty()),
        ) + gathered_markup("style"@, self.attributes.style_text(Seq::empty())) + ">"@ + (
        if E::SELF_CLOSING {
            Seq::empty()
        } else {
            content_html(
                self.attributes.inner_text(Seq::empty()),
                Ch::EXISTS,
                self.children.html(Position::FirstChild, E::ESCAPE_CHILDREN, mark_branches),
            ) + "</"@ + self.tag.tag_name() + ">"@
        })
    }

    open spec fn position_after(&self, position: Position) -> Position {
        Position::NextChild
    }

    fn dry_resolve(&mut self) {
        self.attributes.dry_resolve();
        self.children.dry_resolve();
    }

    open spec fn estimate(&self) -> usize {
        let tag = crate::strings::utf8_len(E::TAG@) as usize;
        if E::SELF_CLOSING {
            saturated(saturated(tag, 3), self.attributes.estimate())
        } else {
            saturated(
                saturated(
                    saturated(
                        saturated(saturated(tag, 2), self.attributes.estimate()),
                        self.children.estimate(),
                    ),
                    3,
                ),
                tag,
            )
        }
    }

    fn html_len(&self) -> (len: usize) {
        let len: usize = {
            let tag: usize = text_len(E::TAG);
            if E::SELF_CLOSING {
                tag.saturating_add(3).saturating_add(self.attributes.html_len())
            } else {
                tag.saturating_add(2).saturating_add(self.attributes.html_len()).saturating_add(
                    self.children.html_len(),
                ).saturating_add(3).saturating_add(tag)
            }
        };
        assert(len == self.estimate());
        len
    }

    fn to_html_with_buf(
        self,
        buf: &mut String,
        position: &mut Position,
        _escape: bool,
        mark_branches: bool,
    ) {
        let ghost start = buf@;
        let ghost whole = self.html(*position, _escape, mark_branches);
        let ghost kids = self.children.html(Position::FirstChild, E::ESCAPE_CHILDREN, mark_branches);
        let HtmlElement { tag, attributes, children } = self;
        buf.append("<");
        buf.append(tag.tag());
        let inner_html = attributes_to_html(attributes, buf);
        buf.append(">");
        if !E::SELF_CLOSING {
            if !inner_html.as_str().is_empty() {
                buf.append(inner_html.as_str());
            } else if Ch::EXISTS {
                *position = Position::FirstChild;
                children.to_html_with_buf(buf, position, E::ESCAPE_CHILDREN, mark_branches);
            }
            buf.append("</");
            buf.append(tag.tag());
            buf.append(">");
        }
        *position = Position::NextChild;
        assert(buf@ =~= start + whole);
        assert(self.position_after(*old(position)) == Position::NextChild);
    }
}

} // verus!
