//! The wrapper that marks a value as a view of the user interface.
use crate::attribute::Attribute;
use crate::element::AddAnyAttr;
use crate::renderer::Dom;
use crate::view::{Position, Render, RenderHtml};
use vstd::prelude::*;

verus! {

/// A wrapper for any kind of view.
#[derive(Debug, Clone, Copy)]
pub struct View<T> {
    inner: T,
}

impl<T> View<T> {
    /// The view that the wrapper holds.
    pub closed spec fn inner(&self) -> T {
        self.inner
    }

    /// Takes the view out of the wrapper.
    pub fn into_inner(self) -> (inner: T)
        ensures
            inner == self.inner(),
    {
        self.inner
    }
}

/// A value that can be wrapped as a view.
pub trait IntoView: Sized + Render + RenderHtml {
    /// Wraps the value.
    fn into_view(self) -> (view: View<Self>)
        ensures
            view.inner() == self,
    ;
}

impl<T: Render + RenderHtml> IntoView for T {
    fn into_view(self) -> (view: View<T>) {
        View { inner: self }
    }
}

impl<T: Render> Render for View<T> {
    type State = T::State;

    open spec fn shown_by(&self, state: &T::State) -> bool {
        self.inner().shown_by(state)
    }

    open spec fn built(&self, before: &Dom, after: &Dom, state: &T::State) -> bool {
        self.inner().built(before, after, state)
    }

    open spec fn rebuilt(&self, before: &Dom, after: &Dom, was: &T::State, state: &T::State) -> bool {
        self.inner().rebuilt(before, after, was, state)
    }

    fn build(self, dom: &mut Dom) -> (state: T::State) {
        self.inner.build(dom)
    }

    fn rebuild(self, dom: &mut Dom, state: &mut T::State) {
        self.inner.rebuild(dom, state);
    }
}

impl<T: RenderHtml> RenderHtml for View<T> {
    const EXISTS: bool = T::EXISTS;

    open spec fn html(&self, position: Position, escape: bool, mark_branches: bool) -> Seq<char> {
        self.inner().html(position, escape, mark_branches)
    }

    open spec fn position_after(&self, position: Position) -> Position {
        self.inner().position_after(position)
    }

    fn dry_resolve(&mut self) {
        self.inner.dry_resolve();
    }

    open spec fn estimate(&self) -> usize {
        self.inner().estimate()
    }

    fn html_len(&self) -> (len: usize) {
        let len: usize = self.inner.html_len();
        assert(len == self.estimate());
        len
    }

    fn to_html_with_buf(
        self,
        buf: &mut String,
        position: &mut Position,
        escape: bool,
        mark_branches: bool,
    ) {
        self.inner.to_html_with_buf(buf, position, escape, mark_branches);
        assert(self.position_after(*old(position)) == self.inner().position_after(*old(position)));
    }
}

impl<T: AddAnyAttr<NewAttr>, NewAttr: Attribute> AddAnyAttr<NewAttr> for View<T> {
    type Output = <T as AddAnyAttr<NewAttr>>::Output;

    open spec fn with_any_attr(self, attr: NewAttr) -> Self::Output {
        self.inner().with_any_attr(attr)
    }

    fn add_any_attr(self, attr: NewAttr) -> (output: Self::Output) {
        self.inner.add_any_attr(attr)
    }
}

} // verus!
