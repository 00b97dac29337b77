//! Text as a view: a string is rendered as one text node.
//!
//! The retained state is the text node and the string last shown. A rebuild
//! compares the new string with that one, by value, and writes the node only
//! where they differ.
use crate::arena::{Arena, DataView, NodeId};
use crate::dom::{Element, Node, Text};
use crate::renderer::Dom;
use crate::text::{encode_text, escaped, str_eq};
use crate::view::{
    insert_before_node, leaf_built, leaf_rebuilt, node_anchor, node_unmounted, show_text,
    unmount_node, Anchor, Mountable, Position, Render, RenderHtml,
};
use std::borrow::Cow;
use std::rc::Rc;
use std::sync::Arc;
use vstd::prelude::*;
use vstd::string::*;

verus! {

/// The markup of the text `text`, written at `position`: a marker comment
/// that parts it from a text before it, then the text, escaped where `escape`
/// asks for it. An empty text that is escaped is written as one space, so
/// that the text node exists.
pub open spec fn text_html(text: Seq<char>, position: Position, escape: bool) -> Seq<char> {
    (if position == Position::NextChildAfterText {
        "<!>"@
    } else {
        Seq::empty()
    }) + (if escape {
        if text.len() == 0 {
            " "@
        } else {
            escaped(text, false)
        }
    } else {
        text
    })
}

/// Writes the markup of `text` to the end of `buf`.
pub fn text_to_html(text: &str, buf: &mut String, position: &mut Position, escape: bool)
    ensures
        final(buf)@ == old(buf)@ + text_html(text@, *old(position), escape),
        *final(position) == Position::NextChildAfterText,
{
    let ghost start = buf@;
    let ghost marker = if *position == Position::NextChildAfterText {
        "<!>"@
    } else {
        Seq::<char>::empty()
    };
    if *position == Position::NextChildAfterText {
        buf.append("<!>");
    }
    assert(buf@ =~= start + marker);
    if escape {
        if text.is_empty() {
            buf.append(" ");
        } else {
            let encoded = encode_text(text);
            buf.append(encoded.as_str());
        }
    } else {
        buf.append(text);
    }
    assert(buf@ =~= start + text_html(text@, *old(position), escape));
    *position = Position::NextChildAfterText;
}

/// The number of bytes that the characters `s` take as text.
pub open spec fn utf8_len(s: Seq<char>) -> nat {
    vstd::utf8::encode_utf8(s).len()
}

/// The length of `text` in bytes.
pub fn text_len(text: &str) -> (len: usize)
    ensures
        len == utf8_len(text@),
{
    text.as_bytes().len()
}

/// Retained view state for `&str`.
pub struct StrState<'a> {
    pub node: Text,
    pub str: &'a str,
}

impl<'a> Render for &'a str {
    type State = StrState<'a>;

    open spec fn shown_by(&self, state: &StrState<'a>) -> bool {
        self@ == state.str@
    }

    open spec fn built(&self, before: &Dom, after: &Dom, state: &StrState<'a>) -> bool {
        state.str@ == self@ && leaf_built(before, after, state.node.0.0, self@)
    }

    open spec fn rebuilt(&self, before: &Dom, after: &Dom, was: &StrState<'a>, state: &StrState<'a>) -> bool {
        &&& state.node == was.node
        &&& state.str@ == self@
        &&& self@ == was.str@ ==> *state == *was
        &&& leaf_rebuilt(before, after, was.node.0.0, self@ != was.str@, self@)
    }

    fn build(self, dom: &mut Dom) -> (state: StrState<'a>) {
        let node = dom.create_text_node(self);
        let state = StrState { node, str: self };
        assert(state.roots()[0] == node.0.0);
        state
    }

    fn rebuild(self, dom: &mut Dom, state: &mut StrState<'a>) {
        if !str_eq(self, state.str) {
            show_text(dom, &state.node, self);
            state.str = self;
        }
    }
}

impl RenderHtml for &str {
    const EXISTS: bool = true;

    open spec fn html(&self, position: Position, escape: bool, mark_branches: bool) -> Seq<char> {
        text_html(self@, position, escape)
    }

    open spec fn position_after(&self, position: Position) -> Position {
        Position::NextChildAfterText
    }

    fn dry_resolve(&mut self) {
    }

    open spec fn estimate(&self) -> usize {
        utf8_len(self@) as usize
    }

    fn html_len(&self) -> (len: usize) {
        let len: usize = text_len(self);
        assert(len == self.estimate());
        len
    }

    fn to_html_with_buf(
        self,
        buf: &mut String,
        position: &mut Position,
        escape: bool,
        _mark_branches: bool,
    ) {
        text_to_html(self, buf, position, escape);
        assert(*position == Position::NextChildAfterText);
        assert(self.position_after(*old(position)) == Position::NextChildAfterText);
    }
}

impl Mountable for StrState<'_> {
    open spec fn roots(&self) -> Seq<NodeId> {
        seq![self.node.0.0]
    }

    open spec fn anchor(&self, doc: &Arena) -> Option<NodeId> {
        node_anchor(doc, self.node.0.0)
    }

    proof fn lemma_anchor(&self, doc: &Arena) {
    }

    open spec fn released(&self, before: &Dom, after: &Dom, state: &Self) -> bool {
        *after == *before && *state == *self
    }

    open spec fn unmounted(&self, before: &Dom, after: &Dom, state: &Self) -> bool {
        *state == *self && node_unmounted(before, after, self.node.0.0)
    }

    fn release(&mut self, dom: &mut Dom) {
    }

    fn unmount(&mut self, dom: &mut Dom) {
        assert(self.roots()[0] == self.node.0.0);
        unmount_node(dom, self.node.0.0);
    }

    fn mount(&mut self, dom: &mut Dom, parent: &Element, marker: Option<&Node>) {
        let node = self.node.0;
        dom.insert_node(parent, &node, marker);
    }
}

impl Anchor for StrState<'_> {
    fn insert_before_this<M: Mountable>(&self, dom: &mut Dom, child: &mut M) -> (inserted: bool) {
        insert_before_node(dom, self.node.0.0, child)
    }
}


/// The characters that `s` shares.
fn rc_str(s: &Rc<str>) -> (r: &str)
    ensures
        r@ == s@,
{
    &**s
}

/// The characters that `s` shares.
fn arc_str(s: &Arc<str>) -> (r: &str)
    ensures
        r@ == s@,
{
    &**s
}

/// The characters that `s` holds or borrows.
fn cow_str<'a, 'b>(s: &'b Cow<'a, str>) -> (r: &'b str)
    ensures
        r@ == s@,
{
    match s {
        Cow::Borrowed(b) => b,
        Cow::Owned(o) => o.as_str(),
    }
}

/// Retained view state for `String`.
pub struct StringState {
    pub node: Text,
    pub str: String,
}

impl Render for String {
    type State = StringState;

    open spec fn shown_by(&self, state: &StringState) -> bool {
        self@ == state.str@
    }

    open spec fn built(&self, before: &Dom, after: &Dom, state: &StringState) -> bool {
        state.str@ == self@ && leaf_built(before, after, state.node.0.0, self@)
    }

    open spec fn rebuilt(&self, before: &Dom, after: &Dom, was: &StringState, state: &StringState) -> bool {
        &&& state.node == was.node
        &&& state.str@ == self@
        &&& self@ == was.str@ ==> *state == *was
        &&& leaf_rebuilt(before, after, was.node.0.0, self@ != was.str@, self@)
    }

    fn build(self, dom: &mut Dom) -> (state: StringState) {
        let node = dom.create_text_node(self.as_str());
        let state = StringState { node, str: self };
        assert(state.roots()[0] == node.0.0);
        state
    }

    fn rebuild(self, dom: &mut Dom, state: &mut StringState) {
        if !str_eq(self.as_str(), state.str.as_str()) {
            show_text(dom, &state.node, self.as_str());
            state.str = self;
        }
    }
}

impl RenderHtml for String {
    const EXISTS: bool = true;

    open spec fn html(&self, position: Position, escape: bool, mark_branches: bool) -> Seq<char> {
        text_html(self@, position, escape)
    }

    open spec fn position_after(&self, position: Position) -> Position {
        Position::NextChildAfterText
    }

    fn dry_resolve(&mut self) {
    }

    open spec fn estimate(&self) -> usize {
        utf8_len(self@) as usize
    }

    fn html_len(&self) -> (len: usize) {
        let len: usize = text_len(self.as_str());
        assert(len == self.estimate());
        len
    }

    fn to_html_with_buf(
        self,
        buf: &mut String,
        position: &mut Position,
        escape: bool,
        _mark_branches: bool,
    ) {
        text_to_html(self.as_str(), buf, position, escape);
        assert(*position == Position::NextChildAfterText);
        assert(self.position_after(*old(position)) == Position::NextChildAfterText);
    }
}

impl Mountable for StringState {
    open spec fn roots(&self) -> Seq<NodeId> {
        seq![self.node.0.0]
    }

    open spec fn anchor(&self, doc: &Arena) -> Option<NodeId> {
        node_anchor(doc, self.node.0.0)
    }

    proof fn lemma_anchor(&self, doc: &Arena) {
    }

    open spec fn released(&self, before: &Dom, after: &Dom, state: &Self) -> bool {
        *after == *before && *state == *self
    }

    open spec fn unmounted(&self, before: &Dom, after: &Dom, state: &Self) -> bool {
        *state == *self && node_unmounted(before, after, self.node.0.0)
    }

    fn release(&mut self, dom: &mut Dom) {
    }

    fn unmount(&mut self, dom: &mut Dom) {
        assert(self.roots()[0] == self.node.0.0);
        unmount_node(dom, self.node.0.0);
    }

    fn mount(&mut self, dom: &mut Dom, parent: &Element, marker: Option<&Node>) {
        let node = self.node.0;
        dom.insert_node(parent, &node, marker);
    }
}

impl Anchor for StringState {
    fn insert_before_this<M: Mountable>(&self, dom: &mut Dom, child: &mut M) -> (inserted: bool) {
        insert_before_node(dom, self.node.0.0, child)
    }
}

/// Retained view state for `Rc<str>`.
pub struct RcStrState {
    pub node: Text,
    pub str: Rc<str>,
}

impl Render for Rc<str> {
    type State = RcStrState;

    open spec fn shown_by(&self, state: &RcStrState) -> bool {
        self@ == state.str@
    }

    open spec fn built(&self, before: &Dom, after: &Dom, state: &RcStrState) -> bool {
        state.str@ == self@ && leaf_built(before, after, state.node.0.0, self@)
    }

    open spec fn rebuilt(&self, before: &Dom, after: &Dom, was: &RcStrState, state: &RcStrState) -> bool {
        &&& state.node == was.node
        &&& state.str@ == self@
        &&& self@ == was.str@ ==> *state == *was
        &&& leaf_rebuilt(before, after, was.node.0.0, self@ != was.str@, self@)
    }

    fn build(self, dom: &mut Dom) -> (state: RcStrState) {
        let node = dom.create_text_node(rc_str(&self));
        let state = RcStrState { node, str: self };
        assert(state.roots()[0] == node.0.0);
        state
    }

    fn rebuild(self, dom: &mut Dom, state: &mut RcStrState) {
        if !str_eq(rc_str(&self), rc_str(&state.str)) {
            show_text(dom, &state.node, rc_str(&self));
            state.str = self;
        }
    }
}

impl Mountable for RcStrState {
    open spec fn roots(&self) -> Seq<NodeId> {
        seq![self.node.0.0]
    }

    open spec fn anchor(&self, doc: &Arena) -> Option<NodeId> {
        node_anchor(doc, self.node.0.0)
    }

    proof fn lemma_anchor(&self, doc: &Arena) {
    }

    open spec fn released(&self, before: &Dom, after: &Dom, state: &Self) -> bool {
        *after == *before && *state == *self
    }

    open spec fn unmounted(&self, before: &Dom, after: &Dom, state: &Self) -> bool {
        *state == *self && node_unmounted(before, after, self.node.0.0)
    }

    fn release(&mut self, dom: &mut Dom) {
    }

    fn unmount(&mut self, dom: &mut Dom) {
        assert(self.roots()[0] == self.node.0.0);
        unmount_node(dom, self.node.0.0);
    }

    fn mount(&mut self, dom: &mut Dom, parent: &Element, marker: Option<&Node>) {
        let node = self.node.0;
        dom.insert_node(parent, &node, marker);
    }
}

impl Anchor for RcStrState {
    fn insert_before_this<M: Mountable>(&self, dom: &mut Dom, child: &mut M) -> (inserted: bool) {
        insert_before_node(dom, self.node.0.0, child)
    }
}

/// Retained view state for `Arc<str>`.
pub struct ArcStrState {
    pub node: Text,
    pub str: Arc<str>,
}

impl Render for Arc<str> {
    type State = ArcStrState;

    open spec fn shown_by(&self, state: &ArcStrState) -> bool {
        self@ == state.str@
    }

    open spec fn built(&self, before: &Dom, after: &Dom, state: &ArcStrState) -> bool {
        state.str@ == self@ && leaf_built(before, after, state.node.0.0, self@)
    }

    open spec fn rebuilt(&self, before: &Dom, after: &Dom, was: &ArcStrState, state: &ArcStrState) -> bool {
        &&& state.node == was.node
        &&& state.str@ == self@
        &&& self@ == was.str@ ==> *state == *was
        &&& leaf_rebuilt(before, after, was.node.0.0, self@ != was.str@, self@)
    }

    fn build(self, dom: &mut Dom) -> (state: ArcStrState) {
        let node = dom.create_text_node(arc_str(&self));
        let state = ArcStrState { node, str: self };
        assert(state.roots()[0] == node.0.0);
        state
    }

    fn rebuild(self, dom: &mut Dom, state: &mut ArcStrState) {
        if !str_eq(arc_str(&self), arc_str(&state.str)) {
            show_text(dom, &state.node, arc_str(&self));
            state.str = self;
        }
    }
}

impl RenderHtml for Arc<str> {
    const EXISTS: bool = true;

    open spec fn html(&self, position: Position, escape: bool, mark_branches: bool) -> Seq<char> {
        text_html(self@, position, escape)
    }

    open spec fn position_after(&self, position: Position) -> Position {
        Position::NextChildAfterText
    }

    fn dry_resolve(&mut self) {
    }

    open spec fn estimate(&self) -> usize {
        utf8_len(self@) as usize
    }

    fn html_len(&self) -> (len: usize) {
        let len: usize = text_len(arc_str(self));
        assert(len == self.estimate());
        len
    }

    fn to_html_with_buf(
        self,
        buf: &mut String,
        position: &mut Position,
        escape: bool,
        _mark_branches: bool,
    ) {
        text_to_html(arc_str(&self), buf, position, escape);
        assert(*position == Position::NextChildAfterText);
        assert(self.position_after(*old(position)) == Position::NextChildAfterText);
    }
}

impl Mountable for ArcStrState {
    open spec fn roots(&self) -> Seq<NodeId> {
        seq![self.node.0.0]
    }

    open spec fn anchor(&self, doc: &Arena) -> Option<NodeId> {
        node_anchor(doc, self.node.0.0)
    }

    proof fn lemma_anchor(&self, doc: &Arena) {
    }

    open spec fn released(&self, before: &Dom, after: &Dom, state: &Self) -> bool {
        *after == *before && *state == *self
    }

    open spec fn unmounted(&self, before: &Dom, after: &Dom, state: &Self) -> bool {
        *state == *self && node_unmounted(before, after, self.node.0.0)
    }

    fn release(&mut self, dom: &mut Dom) {
    }

    fn unmount(&mut self, dom: &mut Dom) {
        assert(self.roots()[0] == self.node.0.0);
        unmount_node(dom, self.node.0.0);
    }

    fn mount(&mut self, dom: &mut Dom, parent: &Element, marker: Option<&Node>) {
        let node = self.node.0;
        dom.insert_node(parent, &node, marker);
    }
}

impl Anchor for ArcStrState {
    fn insert_before_this<M: Mountable>(&self, dom: &mut Dom, child: &mut M) -> (inserted: bool) {
        insert_before_node(dom, self.node.0.0, child)
    }
}

/// Retained view state for `Cow<'_, str>`.
pub struct CowStrState<'a> {
    pub node: Text,
    pub str: Cow<'a, str>,
}

impl<'a> Render for Cow<'a, str> {
    type State = CowStrState<'a>;

    open spec fn shown_by(&self, state: &CowStrState<'a>) -> bool {
        self@ == state.str@
    }

    open spec fn built(&self, before: &Dom, after: &Dom, state: &CowStrState<'a>) -> bool {
        state.str@ == self@ && leaf_built(before, after, state.node.0.0, self@)
    }

    open spec fn rebuilt(&self, before: &Dom, after: &Dom, was: &CowStrState<'a>, state: &CowStrState<'a>) -> bool {
        &&& state.node == was.node
        &&& state.str@ == self@
        &&& self@ == was.str@ ==> *state == *was
        &&& leaf_rebuilt(before, after, was.node.0.0, self@ != was.str@, self@)
    }

    fn build(self, dom: &mut Dom) -> (state: CowStrState<'a>) {
        let node = dom.create_text_node(cow_str(&self));
        let state = CowStrState { node, str: self };
        assert(state.roots()[0] == node.0.0);
        state
    }

    fn rebuild(self, dom: &mut Dom, state: &mut CowStrState<'a>) {
        if !str_eq(cow_str(&self), cow_str(&state.str)) {
            show_text(dom, &state.node, cow_str(&self));
            state.str = self;
        }
    }
}

impl<'a> RenderHtml for Cow<'a, str> {
    const EXISTS: bool = true;

    open spec fn html(&self, position: Position, escape: bool, mark_branches: bool) -> Seq<char> {
        text_html(self@, position, escape)
    }

    open spec fn position_after(&self, position: Position) -> Position {
        Position::NextChildAfterText
    }

    fn dry_resolve(&mut self) {
    }

    open spec fn estimate(&self) -> usize {
        utf8_len(self@) as usize
    }

    fn html_len(&self) -> (len: usize) {
        let len: usize = text_len(cow_str(self));
        assert(len == self.estimate());
        len
    }

    fn to_html_with_buf(
        self,
        buf: &mut String,
        position: &mut Position,
        escape: bool,
        _mark_branches: bool,
    ) {
        text_to_html(cow_str(&self), buf, position, escape);
        assert(*position == Position::NextChildAfterText);
        assert(self.position_after(*old(position)) == Position::NextChildAfterText);
    }
}

impl<'a> Mountable for CowStrState<'a> {
    open spec fn roots(&self) -> Seq<NodeId> {
        seq![self.node.0.0]
    }

    open spec fn anchor(&self, doc: &Arena) -> Option<NodeId> {
        node_anchor(doc, self.node.0.0)
    }

    proof fn lemma_anchor(&self, doc: &Arena) {
    }

    open spec fn released(&self, before: &Dom, after: &Dom, state: &Self) -> bool {
        *after == *before && *state == *self
    }

    open spec fn unmounted(&self, before: &Dom, after: &Dom, state: &Self) -> bool {
        *state == *self && node_unmounted(before, after, self.node.0.0)
    }

    fn release(&mut self, dom: &mut Dom) {
    }

    fn unmount(&mut self, dom: &mut Dom) {
        assert(self.roots()[0] == self.node.0.0);
        unmount_node(dom, self.node.0.0);
    }

    fn mount(&mut self, dom: &mut Dom, parent: &Element, marker: Option<&Node>) {
        let node = self.node.0;
        dom.insert_node(parent, &node, marker);
    }
}

impl<'a> Anchor for CowStrState<'a> {
    fn insert_before_this<M: Mountable>(&self, dom: &mut Dom, child: &mut M) -> (inserted: bool) {
        insert_before_node(dom, self.node.0.0, child)
    }
}

} // verus!
