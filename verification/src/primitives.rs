//! Scalars as views: a number, a truth value or a character is rendered as
//! one text node that holds its text.
//!
//! The retained state is the text node and the value last shown. A rebuild
//! compares the new value with that one and writes the node only where they
//! differ.
use crate::arena::{Arena, DataView, NodeId};
use crate::dom::{bool_text, Element, Node, Text};
use crate::handle::{decimal, format_handle};
use crate::renderer::Dom;
use crate::text::prepend_char;
use crate::view::{
    insert_before_node, leaf_built, leaf_rebuilt, node_anchor, node_unmounted, show_text,
    unmount_node, Anchor, Mountable, Position, Render, RenderHtml,
};
use vstd::prelude::*;
use vstd::string::*;

verus! {

/// The text of the whole number `n`: its decimal digits, behind a minus sign
/// where it is negative.
pub open spec fn int_text(n: int) -> Seq<char> {
    if n < 0 {
        seq!['-'] + decimal((-n) as nat)
    } else {
        decimal(n as nat)
    }
}

/// The text of `n`.
pub fn format_int(n: i64) -> (text: String)
    ensures
        text@ == int_text(n as int),
{
    if n < 0 {
        let magnitude: u64 = (-(n as i128)) as u64;
        let mut text = format_handle(magnitude);
        prepend_char(&mut text, '-');
        text
    } else {
        format_handle(n as u64)
    }
}

/// The text of `b`: `true` or `false`.
pub fn format_bool(b: bool) -> (text: String)
    ensures
        text@ == bool_text(b),
{
    if b {
        String::from_str("true")
    } else {
        String::from_str("false")
    }
}

/// The text that holds the character `c` alone.
pub fn format_char(c: char) -> (text: String)
    ensures
        text@ == seq![c],
{
    let mut text = String::new();
    prepend_char(&mut text, c);
    assert(text@ =~= seq![c]);
    text
}

/// The markup of a scalar with the text `text`, written at `position`: a
/// marker comment that parts it from a text before it, then the text.
pub open spec fn scalar_html(text: Seq<char>, position: Position) -> Seq<char> {
    (if position == Position::NextChildAfterText {
        "<!>"@
    } else {
        Seq::empty()
    }) + text
}

/// Writes the markup of a scalar with the text `text` to the end of `buf`.
pub fn scalar_to_html(text: &str, buf: &mut String, position: &mut Position)
    ensures
        final(buf)@ == old(buf)@ + scalar_html(text@, *old(position)),
        *final(position) == Position::NextChildAfterText,
{
    let ghost start = buf@;
    if *position == Position::NextChildAfterText {
        buf.append("<!>");
    }
    buf.append(text);
    assert(buf@ =~= start + scalar_html(text@, *old(position)));
    *position = Position::NextChildAfterText;
}

/// Retained view state for `u8`.
pub struct U8State(pub Text, pub u8);

impl Mountable for U8State {
    open spec fn roots(&self) -> Seq<NodeId> {
        seq![self.0.0.0]
    }

    open spec fn anchor(&self, doc: &Arena) -> Option<NodeId> {
        node_anchor(doc, self.0.0.0)
    }

    proof fn lemma_anchor(&self, doc: &Arena) {
    }

    open spec fn released(&self, before: &Dom, after: &Dom, state: &Self) -> bool {
        *after == *before && *state == *self
    }

    open spec fn unmounted(&self, before: &Dom, after: &Dom, state: &Self) -> bool {
        *state == *self && node_unmounted(before, after, self.0.0.0)
    }

    fn release(&mut self, dom: &mut Dom) {
    }

    fn unmount(&mut self, dom: &mut Dom) {
        assert(self.roots()[0] == self.0.0.0);
        unmount_node(dom, self.0.0.0);
    }

    fn mount(&mut self, dom: &mut Dom, parent: &Element, marker: Option<&Node>) {
        let node = self.0.0;
        dom.insert_node(parent, &node, marker);
    }
}

impl Anchor for U8State {
    fn insert_before_this<M: Mountable>(&self, dom: &mut Dom, child: &mut M) -> (inserted: bool) {
        insert_before_node(dom, self.0.0.0, child)
    }
}

impl Render for u8 {
    type State = U8State;

    open spec fn shown_by(&self, state: &U8State) -> bool {
        *self == state.1
    }

    open spec fn built(&self, before: &Dom, after: &Dom, state: &U8State) -> bool {
        state.1 == *self && leaf_built(before, after, state.0.0.0, decimal(*self as nat))
    }

    open spec fn rebuilt(&self, before: &Dom, after: &Dom, was: &U8State, state: &U8State) -> bool {
        &&& state.0 == was.0
        &&& state.1 == *self
        &&& leaf_rebuilt(before, after, was.0.0.0, *self != was.1, decimal(*self as nat))
    }

    fn build(self, dom: &mut Dom) -> (state: U8State) {
        let text = format_handle(self as u64);
        let node = dom.create_text_node(text.as_str());
        let state = U8State(node, self);
        assert(state.roots()[0] == node.0.0);
        state
    }

    fn rebuild(self, dom: &mut Dom, state: &mut U8State) {
        if self != state.1 {
            let text = format_handle(self as u64);
            show_text(dom, &state.0, text.as_str());
            state.1 = self;
        }
    }
}

impl RenderHtml for u8 {
    const EXISTS: bool = true;

    open spec fn html(&self, position: Position, escape: bool, mark_branches: bool) -> Seq<char> {
        scalar_html(decimal(*self as nat), position)
    }

    open spec fn position_after(&self, position: Position) -> Position {
        Position::NextChildAfterText
    }

    fn dry_resolve(&mut self) {
    }

    open spec fn estimate(&self) -> usize {
        0
    }

    fn html_len(&self) -> (len: usize) {
        let len: usize = 0;
        assert(len == self.estimate());
        len
    }

    fn to_html_with_buf(
        self,
        buf: &mut String,
        position: &mut Position,
        _escape: bool,
        _mark_branches: bool,
    ) {
        let text = format_handle(self as u64);
        scalar_to_html(text.as_str(), buf, position);
        assert(*position == Position::NextChildAfterText);
        assert(self.position_after(*old(position)) == Position::NextChildAfterText);
    }
}

/// Retained view state for `u16`.
pub struct U16State(pub Text, pub u16);

impl Mountable for U16State {
    open spec fn roots(&self) -> Seq<NodeId> {
        seq![self.0.0.0]
    }

    open spec fn anchor(&self, doc: &Arena) -> Option<NodeId> {
        node_anchor(doc, self.0.0.0)
    }

    proof fn lemma_anchor(&self, doc: &Arena) {
    }

    open spec fn released(&self, before: &Dom, after: &Dom, state: &Self) -> bool {
        *after == *before && *state == *self
    }

    open spec fn unmounted(&self, before: &Dom, after: &Dom, state: &Self) -> bool {
        *state == *self && node_unmounted(before, after, self.0.0.0)
    }

    fn release(&mut self, dom: &mut Dom) {
    }

    fn unmount(&mut self, dom: &mut Dom) {
        assert(self.roots()[0] == self.0.0.0);
        unmount_node(dom, self.0.0.0);
    }

    fn mount(&mut self, dom: &mut Dom, parent: &Element, marker: Option<&Node>) {
        let node = self.0.0;
        dom.insert_node(parent, &node, marker);
    }
}

impl Anchor for U16State {
    fn insert_before_this<M: Mountable>(&self, dom: &mut Dom, child: &mut M) -> (inserted: bool) {
        insert_before_node(dom, self.0.0.0, child)
    }
}

impl Render for u16 {
    type State = U16State;

    open spec fn shown_by(&self, state: &U16State) -> bool {
        *self == state.1
    }

    open spec fn built(&self, before: &Dom, after: &Dom, state: &U16State) -> bool {
        state.1 == *self && leaf_built(before, after, state.0.0.0, decimal(*self as nat))
    }

    open spec fn rebuilt(&self, before: &Dom, after: &Dom, was: &U16State, state: &U16State) -> bool {
        &&& state.0 == was.0
        &&& state.1 == *self
        &&& leaf_rebuilt(before, after, was.0.0.0, *self != was.1, decimal(*self as nat))
    }

    fn build(self, dom: &mut Dom) -> (state: U16State) {
        let text = format_handle(self as u64);
        let node = dom.create_text_node(text.as_str());
        let state = U16State(node, self);
        assert(state.roots()[0] == node.0.0);
        state
    }

    fn rebuild(self, dom: &mut Dom, state: &mut U16State) {
        if self != state.1 {
            let text = format_handle(self as u64);
            show_text(dom, &state.0, text.as_str());
            state.1 = self;
        }
    }
}

impl RenderHtml for u16 {
    const EXISTS: bool = true;

    open spec fn html(&self, position: Position, escape: bool, mark_branches: bool) -> Seq<char> {
        scalar_html(decimal(*self as nat), position)
    }

    open spec fn position_after(&self, position: Position) -> Position {
        Position::NextChildAfterText
    }

    fn dry_resolve(&mut self) {
    }

    open spec fn estimate(&self) -> usize {
        0
    }

    fn html_len(&self) -> (len: usize) {
        let len: usize = 0;
        assert(len == self.estimate());
        len
    }

    fn to_html_with_buf(
        self,
        buf: &mut String,
        position: &mut Position,
        _escape: bool,
        _mark_branches: bool,
    ) {
        let text = format_handle(self as u64);
        scalar_to_html(text.as_str(), buf, position);
        assert(*position == Position::NextChildAfterText);
        assert(self.position_after(*old(position)) == Position::NextChildAfterText);
    }
}

/// Retained view state for `u32`.
pub struct U32State(pub Text, pub u32);

impl Mountable for U32State {
    open spec fn roots(&self) -> Seq<NodeId> {
        seq![self.0.0.0]
    }

    open spec fn anchor(&self, doc: &Arena) -> Option<NodeId> {
        node_anchor(doc, self.0.0.0)
    }

    proof fn lemma_anchor(&self, doc: &Arena) {
    }

    open spec fn released(&self, before: &Dom, after: &Dom, state: &Self) -> bool {
        *after == *before && *state == *self
    }

    open spec fn unmounted(&self, before: &Dom, after: &Dom, state: &Self) -> bool {
        *state == *self && node_unmounted(before, after, self.0.0.0)
    }

    fn release(&mut self, dom: &mut Dom) {
    }

    fn unmount(&mut self, dom: &mut Dom) {
        assert(self.roots()[0] == self.0.0.0);
        unmount_node(dom, self.0.0.0);
    }

    fn mount(&mut self, dom: &mut Dom, parent: &Element, marker: Option<&Node>) {
        let node = self.0.0;
        dom.insert_node(parent, &node, marker);
    }
}

impl Anchor for U32State {
    fn insert_before_this<M: Mountable>(&self, dom: &mut Dom, child: &mut M) -> (inserted: bool) {
        insert_before_node(dom, self.0.0.0, child)
    }
}

impl Render for u32 {
    type State = U32State;

    open spec fn shown_by(&self, state: &U32State) -> bool {
        *self == state.1
    }

    open spec fn built(&self, before: &Dom, after: &Dom, state: &U32State) -> bool {
        state.1 == *self && leaf_built(before, after, state.0.0.0, decimal(*self as nat))
    }

    open spec fn rebuilt(&self, before: &Dom, after: &Dom, was: &U32State, state: &U32State) -> bool {
        &&& state.0 == was.0
        &&& state.1 == *self
        &&& leaf_rebuilt(before, after, was.0.0.0, *self != was.1, decimal(*self as nat))
    }

    fn build(self, dom: &mut Dom) -> (state: U32State) {
        let text = format_handle(self as u64);
        let node = dom.create_text_node(text.as_str());
        let state = U32State(node, self);
        assert(state.roots()[0] == node.0.0);
        state
    }

    fn rebuild(self, dom: &mut Dom, state: &mut U32State) {
        if self != state.1 {
            let text = format_handle(self as u64);
            show_text(dom, &state.0, text.as_str());
            state.1 = self;
        }
    }
}

impl RenderHtml for u32 {
    const EXISTS: bool = true;

    open spec fn html(&self, position: Position, escape: bool, mark_branches: bool) -> Seq<char> {
        scalar_html(decimal(*self as nat), position)
    }

    open spec fn position_after(&self, position: Position) -> Position {
        Position::NextChildAfterText
    }

    fn dry_resolve(&mut self) {
    }

    open spec fn estimate(&self) -> usize {
        0
    }

    fn html_len(&self) -> (len: usize) {
        let len: usize = 0;
        assert(len == self.estimate());
        len
    }

    fn to_html_with_buf(
        self,
        buf: &mut String,
        position: &mut Position,
        _escape: bool,
        _mark_branches: bool,
    ) {
        let text = format_handle(self as u64);
        scalar_to_html(text.as_str(), buf, position);
        assert(*position == Position::NextChildAfterText);
        assert(self.position_after(*old(position)) == Position::NextChildAfterText);
    }
}

/// Retained view state for `u64`.
pub struct U64State(pub Text, pub u64);

impl Mountable for U64State {
    open spec fn roots(&self) -> Seq<NodeId> {
        seq![self.0.0.0]
    }

    open spec fn anchor(&self, doc: &Arena) -> Option<NodeId> {
        node_anchor(doc, self.0.0.0)
    }

    proof fn lemma_anchor(&self, doc: &Arena) {
    }

    open spec fn released(&self, before: &Dom, after: &Dom, state: &Self) -> bool {
        *after == *before && *state == *self
    }

    open spec fn unmounted(&self, before: &Dom, after: &Dom, state: &Self) -> bool {
        *state == *self && node_unmounted(before, after, self.0.0.0)
    }

    fn release(&mut self, dom: &mut Dom) {
    }

    fn unmount(&mut self, dom: &mut Dom) {
        assert(self.roots()[0] == self.0.0.0);
        unmount_node(dom, self.0.0.0);
    }

    fn mount(&mut self, dom: &mut Dom, parent: &Element, marker: Option<&Node>) {
        let node = self.0.0;
        dom.insert_node(parent, &node, marker);
    }
}

impl Anchor for U64State {
    fn insert_before_this<M: Mountable>(&self, dom: &mut Dom, child: &mut M) -> (inserted: bool) {
        insert_before_node(dom, self.0.0.0, child)
    }
}

impl Render for u64 {
    type State = U64State;

    open spec fn shown_by(&self, state: &U64State) -> bool {
        *self == state.1
    }

    open spec fn built(&self, before: &Dom, after: &Dom, state: &U64State) -> bool {
        state.1 == *self && leaf_built(before, after, state.0.0.0, decimal(*self as nat))
    }

    open spec fn rebuilt(&self, before: &Dom, after: &Dom, was: &U64State, state: &U64State) -> bool {
        &&& state.0 == was.0
        &&& state.1 == *self
        &&& leaf_rebuilt(before, after, was.0.0.0, *self != was.1, decimal(*self as nat))
    }

    fn build(self, dom: &mut Dom) -> (state: U64State) {
        let text = format_handle(self as u64);
        let node = dom.create_text_node(text.as_str());
        let state = U64State(node, self);
        assert(state.roots()[0] == node.0.0);
        state
    }

    fn rebuild(self, dom: &mut Dom, state: &mut U64State) {
        if self != state.1 {
            let text = format_handle(self as u64);
            show_text(dom, &state.0, text.as_str());
            state.1 = self;
        }
    }
}

impl RenderHtml for u64 {
    const EXISTS: bool = true;

    open spec fn html(&self, position: Position, escape: bool, mark_branches: bool) -> Seq<char> {
        scalar_html(decimal(*self as nat), position)
    }

    open spec fn position_after(&self, position: Position) -> Position {
        Position::NextChildAfterText
    }

    fn dry_resolve(&mut self) {
    }

    open spec fn estimate(&self) -> usize {
        0
    }

    fn html_len(&self) -> (len: usize) {
        let len: usize = 0;
        assert(len == self.estimate());
        len
    }

    fn to_html_with_buf(
        self,
        buf: &mut String,
        position: &mut Position,
        _escape: bool,
        _mark_branches: bool,
    ) {
        let text = format_handle(self as u64);
        scalar_to_html(text.as_str(), buf, position);
        assert(*position == Position::NextChildAfterText);
        assert(self.position_after(*old(position)) == Position::NextChildAfterText);
    }
}

/// Retained view state for `usize`.
pub struct UsizeState(pub Text, pub usize);

impl Mountable for UsizeState {
    open spec fn roots(&self) -> Seq<NodeId> {
        seq![self.0.0.0]
    }

    open spec fn anchor(&self, doc: &Arena) -> Option<NodeId> {
        node_anchor(doc, self.0.0.0)
    }

    proof fn lemma_anchor(&self, doc: &Arena) {
    }

    open spec fn released(&self, before: &Dom, after: &Dom, state: &Self) -> bool {
        *after == *before && *state == *self
    }

    open spec fn unmounted(&self, before: &Dom, after: &Dom, state: &Self) -> bool {
        *state == *self && node_unmounted(before, after, self.0.0.0)
    }

    fn release(&mut self, dom: &mut Dom) {
    }

    fn unmount(&mut self, dom: &mut Dom) {
        assert(self.roots()[0] == self.0.0.0);
        unmount_node(dom, self.0.0.0);
    }

    fn mount(&mut self, dom: &mut Dom, parent: &Element, marker: Option<&Node>) {
        let node = self.0.0;
        dom.insert_node(parent, &node, marker);
    }
}

impl Anchor for UsizeState {
    fn insert_before_this<M: Mountable>(&self, dom: &mut Dom, child: &mut M) -> (inserted: bool) {
        insert_before_node(dom, self.0.0.0, child)
    }
}

impl Render for usize {
    type State = UsizeState;

    open spec fn shown_by(&self, state: &UsizeState) -> bool {
        *self == state.1
    }

    open spec fn built(&self, before: &Dom, after: &Dom, state: &UsizeState) -> bool {
        state.1 == *self && leaf_built(before, after, state.0.0.0, decimal(*self as nat))
    }

    open spec fn rebuilt(&self, before: &Dom, after: &Dom, was: &UsizeState, state: &UsizeState) -> bool {
        &&& state.0 == was.0
        &&& state.1 == *self
        &&& leaf_rebuilt(before, after, was.0.0.0, *self != was.1, decimal(*self as nat))
    }

    fn build(self, dom: &mut Dom) -> (state: UsizeState) {
        let text = format_handle(self as u64);
        let node = dom.create_text_node(text.as_str());
        let state = UsizeState(node, self);
        assert(state.roots()[0] == node.0.0);
        state
    }

    fn rebuild(self, dom: &mut Dom, state: &mut UsizeState) {
        if self != state.1 {
            let text = format_handle(self as u64);
            show_text(dom, &state.0, text.as_str());
            state.1 = self;
        }
    }
}

impl RenderHtml for usize {
    const EXISTS: bool = true;

    open spec fn html(&self, position: Position, escape: bool, mark_branches: bool) -> Seq<char> {
        scalar_html(decimal(*self as nat), position)
    }

    open spec fn position_after(&self, position: Position) -> Position {
        Position::NextChildAfterText
    }

    fn dry_resolve(&mut self) {
    }

    open spec fn estimate(&self) -> usize {
        0
    }

    fn html_len(&self) -> (len: usize) {
        let len: usize = 0;
        assert(len == self.estimate());
        len
    }

    fn to_html_with_buf(
        self,
        buf: &mut String,
        position: &mut Position,
        _escape: bool,
        _mark_branches: bool,
    ) {
        let text = format_handle(self as u64);
        scalar_to_html(text.as_str(), buf, position);
        assert(*position == Position::NextChildAfterText);
        assert(self.position_after(*old(position)) == Position::NextChildAfterText);
    }
}

/// Retained view state for `i8`.
pub struct I8State(pub Text, pub i8);

impl Mountable for I8State {
    open spec fn roots(&self) -> Seq<NodeId> {
        seq![self.0.0.0]
    }

    open spec fn anchor(&self, doc: &Arena) -> Option<NodeId> {
        node_anchor(doc, self.0.0.0)
    }

    proof fn lemma_anchor(&self, doc: &Arena) {
    }

    open spec fn released(&self, before: &Dom, after: &Dom, state: &Self) -> bool {
        *after == *before && *state == *self
    }

    open spec fn unmounted(&self, before: &Dom, after: &Dom, state: &Self) -> bool {
        *state == *self && node_unmounted(before, after, self.0.0.0)
    }

    fn release(&mut self, dom: &mut Dom) {
    }

    fn unmount(&mut self, dom: &mut Dom) {
        assert(self.roots()[0] == self.0.0.0);
        unmount_node(dom, self.0.0.0);
    }

    fn mount(&mut self, dom: &mut Dom, parent: &Element, marker: Option<&Node>) {
        let node = self.0.0;
        dom.insert_node(parent, &node, marker);
    }
}

impl Anchor for I8State {
    fn insert_before_this<M: Mountable>(&self, dom: &mut Dom, child: &mut M) -> (inserted: bool) {
        insert_before_node(dom, self.0.0.0, child)
    }
}

impl Render for i8 {
    type State = I8State;

    open spec fn shown_by(&self, state: &I8State) -> bool {
        *self == state.1
    }

    open spec fn built(&self, before: &Dom, after: &Dom, state: &I8State) -> bool {
        state.1 == *self && leaf_built(before, after, state.0.0.0, int_text(*self as int))
    }

    open spec fn rebuilt(&self, before: &Dom, after: &Dom, was: &I8State, state: &I8State) -> bool {
        &&& state.0 == was.0
        &&& state.1 == *self
        &&& leaf_rebuilt(before, after, was.0.0.0, *self != was.1, int_text(*self as int))
    }

    fn build(self, dom: &mut Dom) -> (state: I8State) {
        let text = format_int(self as i64);
        let node = dom.create_text_node(text.as_str());
        let state = I8State(node, self);
        assert(state.roots()[0] == node.0.0);
        state
    }

    fn rebuild(self, dom: &mut Dom, state: &mut I8State) {
        if self != state.1 {
            let text = format_int(self as i64);
            show_text(dom, &state.0, text.as_str());
            state.1 = self;
        }
    }
}

impl RenderHtml for i8 {
    const EXISTS: bool = true;

    open spec fn html(&self, position: Position, escape: bool, mark_branches: bool) -> Seq<char> {
        scalar_html(int_text(*self as int), position)
    }

    open spec fn position_after(&self, position: Position) -> Position {
        Position::NextChildAfterText
    }

    fn dry_resolve(&mut self) {
    }

    open spec fn estimate(&self) -> usize {
        0
    }

    fn html_len(&self) -> (len: usize) {
        let len: usize = 0;
        assert(len == self.estimate());
        len
    }

    fn to_html_with_buf(
        self,
        buf: &mut String,
        position: &mut Position,
        _escape: bool,
        _mark_branches: bool,
    ) {
        let text = format_int(self as i64);
        scalar_to_html(text.as_str(), buf, position);
        assert(*position == Position::NextChildAfterText);
        assert(self.position_after(*old(position)) == Position::NextChildAfterText);
    }
}

/// Retained view state for `i16`.
pub struct I16State(pub Text, pub i16);

impl Mountable for I16State {
    open spec fn roots(&self) -> Seq<NodeId> {
        seq![self.0.0.0]
    }

    open spec fn anchor(&self, doc: &Arena) -> Option<NodeId> {
        node_anchor(doc, self.0.0.0)
    }

    proof fn lemma_anchor(&self, doc: &Arena) {
    }

    open spec fn released(&self, before: &Dom, after: &Dom, state: &Self) -> bool {
        *after == *before && *state == *self
    }

    open spec fn unmounted(&self, before: &Dom, after: &Dom, state: &Self) -> bool {
        *state == *self && node_unmounted(before, after, self.0.0.0)
    }

    fn release(&mut self, dom: &mut Dom) {
    }

    fn unmount(&mut self, dom: &mut Dom) {
        assert(self.roots()[0] == self.0.0.0);
        unmount_node(dom, self.0.0.0);
    }

    fn mount(&mut self, dom: &mut Dom, parent: &Element, marker: Option<&Node>) {
        let node = self.0.0;
        dom.insert_node(parent, &node, marker);
    }
}

impl Anchor for I16State {
    fn insert_before_this<M: Mountable>(&self, dom: &mut Dom, child: &mut M) -> (inserted: bool) {
        insert_before_node(dom, self.0.0.0, child)
    }
}

impl Render for i16 {
    type State = I16State;

    open spec fn shown_by(&self, state: &I16State) -> bool {
        *self == state.1
    }

    open spec fn built(&self, before: &Dom, after: &Dom, state: &I16State) -> bool {
        state.1 == *self && leaf_built(before, after, state.0.0.0, int_text(*self as int))
    }

    open spec fn rebuilt(&self, before: &Dom, after: &Dom, was: &I16State, state: &I16State) -> bool {
        &&& state.0 == was.0
        &&& state.1 == *self
        &&& leaf_rebuilt(before, after, was.0.0.0, *self != was.1, int_text(*self as int))
    }

    fn build(self, dom: &mut Dom) -> (state: I16State) {
        let text = format_int(self as i64);
        let node = dom.create_text_node(text.as_str());
        let state = I16State(node, self);
        assert(state.roots()[0] == node.0.0);
        state
    }

    fn rebuild(self, dom: &mut Dom, state: &mut I16State) {
        if self != state.1 {
            let text = format_int(self as i64);
            show_text(dom, &state.0, text.as_str());
            state.1 = self;
        }
    }
}

impl RenderHtml for i16 {
    const EXISTS: bool = true;

    open spec fn html(&self, position: Position, escape: bool, mark_branches: bool) -> Seq<char> {
        scalar_html(int_text(*self as int), position)
    }

    open spec fn position_after(&self, position: Position) -> Position {
        Position::NextChildAfterText
    }

    fn dry_resolve(&mut self) {
    }

    open spec fn estimate(&self) -> usize {
        0
    }

    fn html_len(&self) -> (len: usize) {
        let len: usize = 0;
        assert(len == self.estimate());
        len
    }

    fn to_html_with_buf(
        self,
        buf: &mut String,
        position: &mut Position,
        _escape: bool,
        _mark_branches: bool,
    ) {
        let text = format_int(self as i64);
        scalar_to_html(text.as_str(), buf, position);
        assert(*position == Position::NextChildAfterText);
        assert(self.position_after(*old(position)) == Position::NextChildAfterText);
    }
}

/// Retained view state for `i32`.
pub struct I32State(pub Text, pub i32);

impl Mountable for I32State {
    open spec fn roots(&self) -> Seq<NodeId> {
        seq![self.0.0.0]
    }

    open spec fn anchor(&self, doc: &Arena) -> Option<NodeId> {
        node_anchor(doc, self.0.0.0)
    }

    proof fn lemma_anchor(&self, doc: &Arena) {
    }

    open spec fn released(&self, before: &Dom, after: &Dom, state: &Self) -> bool {
        *after == *before && *state == *self
    }

    open spec fn unmounted(&self, before: &Dom, after: &Dom, state: &Self) -> bool {
        *state == *self && node_unmounted(before, after, self.0.0.0)
    }

    fn release(&mut self, dom: &mut Dom) {
    }

    fn unmount(&mut self, dom: &mut Dom) {
        assert(self.roots()[0] == self.0.0.0);
        unmount_node(dom, self.0.0.0);
    }

    fn mount(&mut self, dom: &mut Dom, parent: &Element, marker: Option<&Node>) {
        let node = self.0.0;
        dom.insert_node(parent, &node, marker);
    }
}

impl Anchor for I32State {
    fn insert_before_this<M: Mountable>(&self, dom: &mut Dom, child: &mut M) -> (inserted: bool) {
        insert_before_node(dom, self.0.0.0, child)
    }
}

impl Render for i32 {
    type State = I32State;

    open spec fn shown_by(&self, state: &I32State) -> bool {
        *self == state.1
    }

    open spec fn built(&self, before: &Dom, after: &Dom, state: &I32State) -> bool {
        state.1 == *self && leaf_built(before, after, state.0.0.0, int_text(*self as int))
    }

    open spec fn rebuilt(&self, before: &Dom, after: &Dom, was: &I32State, state: &I32State) -> bool {
        &&& state.0 == was.0
        &&& state.1 == *self
        &&& leaf_rebuilt(before, after, was.0.0.0, *self != was.1, int_text(*self as int))
    }

    fn build(self, dom: &mut Dom) -> (state: I32State) {
        let text = format_int(self as i64);
        let node = dom.create_text_node(text.as_str());
        let state = I32State(node, self);
        assert(state.roots()[0] == node.0.0);
        state
    }

    fn rebuild(self, dom: &mut Dom, state: &mut I32State) {
        if self != state.1 {
            let text = format_int(self as i64);
            show_text(dom, &state.0, text.as_str());
            state.1 = self;
        }
    }
}

impl RenderHtml for i32 {
    const EXISTS: bool = true;

    open spec fn html(&self, position: Position, escape: bool, mark_branches: bool) -> Seq<char> {
        scalar_html(int_text(*self as int), position)
    }

    open spec fn position_after(&self, position: Position) -> Position {
        Position::NextChildAfterText
    }

    fn dry_resolve(&mut self) {
    }

    open spec fn estimate(&self) -> usize {
        0
    }

    fn html_len(&self) -> (len: usize) {
        let len: usize = 0;
        assert(len == self.estimate());
        len
    }

    fn to_html_with_buf(
        self,
        buf: &mut String,
        position: &mut Position,
        _escape: bool,
        _mark_branches: bool,
    ) {
        let text = format_int(self as i64);
        scalar_to_html(text.as_str(), buf, position);
        assert(*position == Position::NextChildAfterText);
        assert(self.position_after(*old(position)) == Position::NextChildAfterText);
    }
}

/// Retained view state for `i64`.
pub struct I64State(pub Text, pub i64);

impl Mountable for I64State {
    open spec fn roots(&self) -> Seq<NodeId> {
        seq![self.0.0.0]
    }

    open spec fn anchor(&self, doc: &Arena) -> Option<NodeId> {
        node_anchor(doc, self.0.0.0)
    }

    proof fn lemma_anchor(&self, doc: &Arena) {
    }

    open spec fn released(&self, before: &Dom, after: &Dom, state: &Self) -> bool {
        *after == *before && *state == *self
    }

    open spec fn unmounted(&self, before: &Dom, after: &Dom, state: &Self) -> bool {
        *state == *self && node_unmounted(before, after, self.0.0.0)
    }

    fn release(&mut self, dom: &mut Dom) {
    }

    fn unmount(&mut self, dom: &mut Dom) {
        assert(self.roots()[0] == self.0.0.0);
        unmount_node(dom, self.0.0.0);
    }

    fn mount(&mut self, dom: &mut Dom, parent: &Element, marker: Option<&Node>) {
        let node = self.0.0;
        dom.insert_node(parent, &node, marker);
    }
}

impl Anchor for I64State {
    fn insert_before_this<M: Mountable>(&self, dom: &mut Dom, child: &mut M) -> (inserted: bool) {
        insert_before_node(dom, self.0.0.0, child)
    }
}

impl Render for i64 {
    type State = I64State;

    open spec fn shown_by(&self, state: &I64State) -> bool {
        *self == state.1
    }

    open spec fn built(&self, before: &Dom, after: &Dom, state: &I64State) -> bool {
        state.1 == *self && leaf_built(before, after, state.0.0.0, int_text(*self as int))
    }

    open spec fn rebuilt(&self, before: &Dom, after: &Dom, was: &I64State, state: &I64State) -> bool {
        &&& state.0 == was.0
        &&& state.1 == *self
        &&& leaf_rebuilt(before, after, was.0.0.0, *self != was.1, int_text(*self as int))
    }

    fn build(self, dom: &mut Dom) -> (state: I64State) {
        let text = format_int(self as i64);
        let node = dom.create_text_node(text.as_str());
        let state = I64State(node, self);
        assert(state.roots()[0] == node.0.0);
        state
    }

    fn rebuild(self, dom: &mut Dom, state: &mut I64State) {
        if self != state.1 {
            let text = format_int(self as i64);
            show_text(dom, &state.0, text.as_str());
            state.1 = self;
        }
    }
}

impl RenderHtml for i64 {
    const EXISTS: bool = true;

    open spec fn html(&self, position: Position, escape: bool, mark_branches: bool) -> Seq<char> {
        scalar_html(int_text(*self as int), position)
    }

    open spec fn position_after(&self, position: Position) -> Position {
        Position::NextChildAfterText
    }

    fn dry_resolve(&mut self) {
    }

    open spec fn estimate(&self) -> usize {
        0
    }

    fn html_len(&self) -> (len: usize) {
        let len: usize = 0;
        assert(len == self.estimate());
        len
    }

    fn to_html_with_buf(
        self,
        buf: &mut String,
        position: &mut Position,
        _escape: bool,
        _mark_branches: bool,
    ) {
        let text = format_int(self as i64);
        scalar_to_html(text.as_str(), buf, position);
        assert(*position == Position::NextChildAfterText);
        assert(self.position_after(*old(position)) == Position::NextChildAfterText);
    }
}

/// Retained view state for `isize`.
pub struct IsizeState(pub Text, pub isize);

impl Mountable for IsizeState {
    open spec fn roots(&self) -> Seq<NodeId> {
        seq![self.0.0.0]
    }

    open spec fn anchor(&self, doc: &Arena) -> Option<NodeId> {
        node_anchor(doc, self.0.0.0)
    }

    proof fn lemma_anchor(&self, doc: &Arena) {
    }

    open spec fn released(&self, before: &Dom, after: &Dom, state: &Self) -> bool {
        *after == *before && *state == *self
    }

    open spec fn unmounted(&self, before: &Dom, after: &Dom, state: &Self) -> bool {
        *state == *self && node_unmounted(before, after, self.0.0.0)
    }

    fn release(&mut self, dom: &mut Dom) {
    }

    fn unmount(&mut self, dom: &mut Dom) {
        assert(self.roots()[0] == self.0.0.0);
        unmount_node(dom, self.0.0.0);
    }

    fn mount(&mut self, dom: &mut Dom, parent: &Element, marker: Option<&Node>) {
        let node = self.0.0;
        dom.insert_node(parent, &node, marker);
    }
}

impl Anchor for IsizeState {
    fn insert_before_this<M: Mountable>(&self, dom: &mut Dom, child: &mut M) -> (inserted: bool) {
        insert_before_node(dom, self.0.0.0, child)
    }
}

impl Render for isize {
    type State = IsizeState;

    open spec fn shown_by(&self, state: &IsizeState) -> bool {
        *self == state.1
    }

    open spec fn built(&self, before: &Dom, after: &Dom, state: &IsizeState) -> bool {
        state.1 == *self && leaf_built(before, after, state.0.0.0, int_text(*self as int))
    }

    open spec fn rebuilt(&self, before: &Dom, after: &Dom, was: &IsizeState, state: &IsizeState) -> bool {
        &&& state.0 == was.0
        &&& state.1 == *self
        &&& leaf_rebuilt(before, after, was.0.0.0, *self != was.1, int_text(*self as int))
    }

    fn build(self, dom: &mut Dom) -> (state: IsizeState) {
        let text = format_int(self as i64);
        let node = dom.create_text_node(text.as_str());
        let state = IsizeState(node, self);
        assert(state.roots()[0] == node.0.0);
        state
    }

    fn rebuild(self, dom: &mut Dom, state: &mut IsizeState) {
        if self != state.1 {
            let text = format_int(self as i64);
            show_text(dom, &state.0, text.as_str());
            state.1 = self;
        }
    }
}

impl RenderHtml for isize {
    const EXISTS: bool = true;

    open spec fn html(&self, position: Position, escape: bool, mark_branches: bool) -> Seq<char> {
        scalar_html(int_text(*self as int), position)
    }

    open spec fn position_after(&self, position: Position) -> Position {
        Position::NextChildAfterText
    }

    fn dry_resolve(&mut self) {
    }

    open spec fn estimate(&self) -> usize {
        0
    }

    fn html_len(&self) -> (len: usize) {
        let len: usize = 0;
        assert(len == self.estimate());
        len
    }

    fn to_html_with_buf(
        self,
        buf: &mut String,
        position: &mut Position,
        _escape: bool,
        _mark_branches: bool,
    ) {
        let text = format_int(self as i64);
        scalar_to_html(text.as_str(), buf, position);
        assert(*position == Position::NextChildAfterText);
        assert(self.position_after(*old(position)) == Position::NextChildAfterText);
    }
}

/// Retained view state for `bool`.
pub struct BoolState(pub Text, pub bool);

impl Mountable for BoolState {
    open spec fn roots(&self) -> Seq<NodeId> {
        seq![self.0.0.0]
    }

    open spec fn anchor(&self, doc: &Arena) -> Option<NodeId> {
        node_anchor(doc, self.0.0.0)
    }

    proof fn lemma_anchor(&self, doc: &Arena) {
    }

    open spec fn released(&self, before: &Dom, after: &Dom, state: &Self) -> bool {
        *after == *before && *state == *self
    }

    open spec fn unmounted(&self, before: &Dom, after: &Dom, state: &Self) -> bool {
        *state == *self && node_unmounted(before, after, self.0.0.0)
    }

    fn release(&mut self, dom: &mut Dom) {
    }

    fn unmount(&mut self, dom: &mut Dom) {
        assert(self.roots()[0] == self.0.0.0);
        unmount_node(dom, self.0.0.0);
    }

    fn mount(&mut self, dom: &mut Dom, parent: &Element, marker: Option<&Node>) {
        let node = self.0.0;
        dom.insert_node(parent, &node, marker);
    }
}

impl Anchor for BoolState {
    fn insert_before_this<M: Mountable>(&self, dom: &mut Dom, child: &mut M) -> (inserted: bool) {
        insert_before_node(dom, self.0.0.0, child)
    }
}

impl Render for bool {
    type State = BoolState;

    open spec fn shown_by(&self, state: &BoolState) -> bool {
        *self == state.1
    }

    open spec fn built(&self, before: &Dom, after: &Dom, state: &BoolState) -> bool {
        state.1 == *self && leaf_built(before, after, state.0.0.0, bool_text(*self))
    }

    open spec fn rebuilt(&self, before: &Dom, after: &Dom, was: &BoolState, state: &BoolState) -> bool {
        &&& state.0 == was.0
        &&& state.1 == *self
        &&& leaf_rebuilt(before, after, was.0.0.0, *self != was.1, bool_text(*self))
    }

    fn build(self, dom: &mut Dom) -> (state: BoolState) {
        let text = format_bool(self);
        let node = dom.create_text_node(text.as_str());
        let state = BoolState(node, self);
        assert(state.roots()[0] == node.0.0);
        state
    }

    fn rebuild(self, dom: &mut Dom, state: &mut BoolState) {
        if self != state.1 {
            let text = format_bool(self);
            show_text(dom, &state.0, text.as_str());
            state.1 = self;
        }
    }
}

impl RenderHtml for bool {
    const EXISTS: bool = true;

    open spec fn html(&self, position: Position, escape: bool, mark_branches: bool) -> Seq<char> {
        scalar_html(bool_text(*self), position)
    }

    open spec fn position_after(&self, position: Position) -> Position {
        Position::NextChildAfterText
    }

    fn dry_resolve(&mut self) {
    }

    open spec fn estimate(&self) -> usize {
        0
    }

    fn html_len(&self) -> (len: usize) {
        let len: usize = 0;
        assert(len == self.estimate());
        len
    }

    fn to_html_with_buf(
        self,
        buf: &mut String,
        position: &mut Position,
        _escape: bool,
        _mark_branches: bool,
    ) {
        let text = format_bool(self);
        scalar_to_html(text.as_str(), buf, position);
        assert(*position == Position::NextChildAfterText);
        assert(self.position_after(*old(position)) == Position::NextChildAfterText);
    }
}

/// Retained view state for `char`.
pub struct CharState(pub Text, pub char);

impl Mountable for CharState {
    open spec fn roots(&self) -> Seq<NodeId> {
        seq![self.0.0.0]
    }

    open spec fn anchor(&self, doc: &Arena) -> Option<NodeId> {
        node_anchor(doc, self.0.0.0)
    }

    proof fn lemma_anchor(&self, doc: &Arena) {
    }

    open spec fn released(&self, before: &Dom, after: &Dom, state: &Self) -> bool {
        *after == *before && *state == *self
    }

    open spec fn unmounted(&self, before: &Dom, after: &Dom, state: &Self) -> bool {
        *state == *self && node_unmounted(before, after, self.0.0.0)
    }

    fn release(&mut self, dom: &mut Dom) {
    }

    fn unmount(&mut self, dom: &mut Dom) {
        assert(self.roots()[0] == self.0.0.0);
        unmount_node(dom, self.0.0.0);
    }

    fn mount(&mut self, dom: &mut Dom, parent: &Element, marker: Option<&Node>) {
        let node = self.0.0;
        dom.insert_node(parent, &node, marker);
    }
}

impl Anchor for CharState {
    fn insert_before_this<M: Mountable>(&self, dom: &mut Dom, child: &mut M) -> (inserted: bool) {
        insert_before_node(dom, self.0.0.0, child)
    }
}

impl Render for char {
    type State = CharState;

    open spec fn shown_by(&self, state: &CharState) -> bool {
        *self == state.1
    }

    open spec fn built(&self, before: &Dom, after: &Dom, state: &CharState) -> bool {
        state.1 == *self && leaf_built(before, after, state.0.0.0, seq![*self])
    }

    open spec fn rebuilt(&self, before: &Dom, after: &Dom, was: &CharState, state: &CharState) -> bool {
        &&& state.0 == was.0
        &&& state.1 == *self
        &&& leaf_rebuilt(before, after, was.0.0.0, *self != was.1, seq![*self])
    }

    fn build(self, dom: &mut Dom) -> (state: CharState) {
        let text = format_char(self);
        let node = dom.create_text_node(text.as_str());
        let state = CharState(node, self);
        assert(state.roots()[0] == node.0.0);
        state
    }

    fn rebuild(self, dom: &mut Dom, state: &mut CharState) {
        if self != state.1 {
            let text = format_char(self);
            show_text(dom, &state.0, text.as_str());
            state.1 = self;
        }
    }
}

impl RenderHtml for char {
    const EXISTS: bool = true;

    open spec fn html(&self, position: Position, escape: bool, mark_branches: bool) -> Seq<char> {
        scalar_html(seq![*self], position)
    }

    open spec fn position_after(&self, position: Position) -> Position {
        Position::NextChildAfterText
    }

    fn dry_resolve(&mut self) {
    }

    open spec fn estimate(&self) -> usize {
        0
    }

    fn html_len(&self) -> (len: usize) {
        let len: usize = 0;
        assert(len == self.estimate());
        len
    }

    fn to_html_with_buf(
        self,
        buf: &mut String,
        position: &mut Position,
        _escape: bool,
        _mark_branches: bool,
    ) {
        let text = format_char(self);
        scalar_to_html(text.as_str(), buf, position);
        assert(*position == Position::NextChildAfterText);
        assert(self.position_after(*old(position)) == Position::NextChildAfterText);
    }
}

} // verus!
