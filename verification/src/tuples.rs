//! Views side by side: a tuple of views is rendered as its members, one
//! after the other. The empty tuple is the view that shows nothing.
use crate::arena::{insertion_index, insertion_parent, Arena, NodeId, ROOT};
use crate::dom::{opt_id, Element, Node};
use crate::renderer::Dom;
use crate::view::{saturated, Anchor, Mountable, Position, Render, RenderHtml};
use vstd::prelude::*;

verus! {

impl Mountable for () {
    open spec fn roots(&self) -> Seq<NodeId> {
        Seq::empty()
    }

    open spec fn anchor(&self, doc: &Arena) -> Option<NodeId> {
        None
    }

    proof fn lemma_anchor(&self, doc: &Arena) {
    }

    open spec fn released(&self, before: &Dom, after: &Dom, state: &()) -> bool {
        *after == *before
    }

    open spec fn unmounted(&self, before: &Dom, after: &Dom, state: &()) -> bool {
        *after == *before
    }

    fn release(&mut self, dom: &mut Dom) {
    }

    fn unmount(&mut self, dom: &mut Dom) {
        proof {
            dom.doc.lemma_without_nothing(Seq::empty());
        }
    }

    fn mount(&mut self, dom: &mut Dom, parent: &Element, marker: Option<&Node>) {
        proof {
            let doc = dom.doc;
            let target = insertion_parent(doc@, parent.0.0, opt_id(marker));
            let index = insertion_index(doc@, parent.0.0, opt_id(marker));
            let kids = doc@[target].children;
            if let Some(m) = marker {
                assert(kids.contains(m.0));
            }
            assert(kids.subrange(0, index) + Seq::<NodeId>::empty() + kids.subrange(
                index,
                kids.len() as int,
            ) =~= kids);
            assert(doc@ =~= crate::arena::spliced(doc@, target, index, Seq::empty()));
        }
    }
}

impl Anchor for () {
    fn insert_before_this<M: Mountable>(&self, dom: &mut Dom, child: &mut M) -> (inserted: bool) {
        false
    }
}

impl Render for () {
    type State = ();

    open spec fn shown_by(&self, state: &()) -> bool {
        true
    }

    open spec fn built(&self, before: &Dom, after: &Dom, state: &()) -> bool {
        *after == *before
    }

    open spec fn rebuilt(&self, before: &Dom, after: &Dom, was: &(), state: &()) -> bool {
        *after == *before
    }

    fn build(self, dom: &mut Dom) -> (state: ()) {
        assert(dom.events@.submap_of(dom.events@));
        assert(dom.doc.pending().is_prefix_of(dom.doc.pending()));
    }

    fn rebuild(self, dom: &mut Dom, state: &mut ()) {
    }
}

impl RenderHtml for () {
    const EXISTS: bool = false;

    open spec fn html(&self, position: Position, escape: bool, mark_branches: bool) -> Seq<char> {
        Seq::empty()
    }

    open spec fn position_after(&self, position: Position) -> Position {
        position
    }

    fn dry_resolve(&mut self) {
    }

    open spec fn estimate(&self) -> usize {
        0
    }

    fn html_len(&self) -> (len: usize) {
        let len: usize = 0;
        assert(len == self.estimate());
        len
    }

    fn to_html_with_buf(
        self,
        buf: &mut String,
        position: &mut Position,
        _escape: bool,
        _mark_branches: bool,
    ) {
        assert(buf@ + Seq::<char>::empty() =~= buf@);
        assert(self.position_after(*old(position)) == *old(position));
    }
}

impl<A: Mountable, B: Mountable> Mountable for (A, B) {
    open spec fn roots(&self) -> Seq<NodeId> {
        self.0.roots() + self.1.roots()
    }

    open spec fn anchor(&self, doc: &Arena) -> Option<NodeId> {
        match self.0.anchor(doc) {
            Some(r) => Some(r),
            None => self.1.anchor(doc),
        }
    }

    proof fn lemma_anchor(&self, doc: &Arena) {
        self.0.lemma_anchor(doc);
        self.1.lemma_anchor(doc);
    }

    open spec fn released(&self, before: &Dom, after: &Dom, state: &(A, B)) -> bool {
        exists|middle: Dom| #[trigger]
            self.0.released(before, &middle, &state.0) && self.1.released(&middle, after, &state.1)
    }

    open spec fn unmounted(&self, before: &Dom, after: &Dom, state: &(A, B)) -> bool {
        exists|middle: Dom| #[trigger]
            self.0.unmounted(before, &middle, &state.0) && self.1.unmounted(
                &middle,
                after,
                &state.1,
            )
    }

    fn release(&mut self, dom: &mut Dom) {
        self.0.release(dom);
        let ghost middle = *dom;
        self.1.release(dom);
        proof {
            vstd::map_lib::lemma_submap_of_trans(dom.events@, middle.events@, old(dom).events@);
            assert(old(self).0.released(old(dom), &middle, &self.0) && old(self).1.released(
                &middle,
                dom,
                &self.1,
            ));
        }
    }

    fn unmount(&mut self, dom: &mut Dom) {
        let ghost first = self.0.roots();
        let ghost second = self.1.roots();
        proof {
            if first.contains(ROOT) {
                let k = choose|k: int| 0 <= k < first.len() && first[k] == ROOT;
                assert((first + second)[k] == ROOT);
            }
            if second.contains(ROOT) {
                let k = choose|k: int| 0 <= k < second.len() && second[k] == ROOT;
                assert((first + second)[first.len() + k] == ROOT);
            }
        }
        self.0.unmount(dom);
        let ghost between = *dom;
        let ghost middle = dom.doc;
        let ghost middle_events = dom.events@;
        self.1.unmount(dom);
        proof {
            assert(old(self).0.unmounted(old(dom), &between, &self.0) && old(self).1.unmounted(
                &between,
                dom,
                &self.1,
            ));
            dom.doc.lemma_without_compose(&middle, &old(dom).doc, first, second);
            vstd::map_lib::lemma_submap_of_trans(dom.events@, middle_events, old(dom).events@);
        }
    }

    fn mount(&mut self, dom: &mut Dom, parent: &Element, marker: Option<&Node>) {
        let ghost first = self.0.roots();
        let ghost second = self.1.roots();
        let ghost before = dom.doc;
        let ghost target = insertion_parent(before@, parent.0.0, opt_id(marker));
        let ghost index = insertion_index(before@, parent.0.0, opt_id(marker));
        proof {
            before.lemma_adoptable_split(first, second, target);
            if let Some(m) = marker {
                assert(before@[target].children.contains(m.0));
            }
        }
        self.0.mount(dom, parent, marker);
        let ghost middle = dom.doc;
        proof {
            middle.lemma_adopts_first(&before, parent.0.0, opt_id(marker), first, second);
        }
        self.1.mount(dom, parent, marker);
        proof {
            dom.doc.lemma_adopts_both(&middle, &before, target, index, first, second);
        }
    }
}

impl<A: Anchor, B: Anchor> Anchor for (A, B) {
    fn insert_before_this<M: Mountable>(&self, dom: &mut Dom, child: &mut M) -> (inserted: bool) {
        proof {
            self.0.lemma_anchor(&dom.doc);
            self.1.lemma_anchor(&dom.doc);
        }
        if self.0.insert_before_this(dom, child) {
            true
        } else {
            self.1.insert_before_this(dom, child)
        }
    }
}

impl<A: Render, B: Render> Render for (A, B) {
    type State = (A::State, B::State);

    open spec fn shown_by(&self, state: &(A::State, B::State)) -> bool {
        self.0.shown_by(&state.0) && self.1.shown_by(&state.1)
    }

    open spec fn built(&self, before: &Dom, after: &Dom, state: &(A::State, B::State)) -> bool {
        exists|middle: Dom| #[trigger]
            self.0.built(before, &middle, &state.0) && self.1.built(&middle, after, &state.1)
    }

    open spec fn rebuilt(
        &self,
        before: &Dom,
        after: &Dom,
        was: &(A::State, B::State),
        state: &(A::State, B::State),
    ) -> bool {
        exists|middle: Dom| #[trigger]
            self.0.rebuilt(before, &middle, &was.0, &state.0) && self.1.rebuilt(
                &middle,
                after,
                &was.1,
                &state.1,
            )
    }

    fn build(self, dom: &mut Dom) -> (state: (A::State, B::State)) {
        let first = self.0.build(dom);
        let ghost middle = *dom;
        let second = self.1.build(dom);
        let state = (first, second);
        proof {
            assert(self.0.built(old(dom), &middle, &state.0) && self.1.built(
                &middle,
                dom,
                &state.1,
            ));
            dom.lemma_extends_trans(&middle, old(dom));
            dom.doc.lemma_detached_concat(&middle.doc, first.roots(), second.roots());
            assert forall|k: int| 0 <= k < state.roots().len() implies !old(dom).doc@.contains_key(
                #[trigger] state.roots()[k],
            ) by {
                if k < first.roots().len() {
                    assert(state.roots()[k] == first.roots()[k]);
                } else {
                    assert(state.roots()[k] == second.roots()[k - first.roots().len()]);
                }
            }
        }
        state
    }

    fn rebuild(self, dom: &mut Dom, state: &mut (A::State, B::State)) {
        self.0.rebuild(dom, &mut state.0);
        let ghost middle = *dom;
        self.1.rebuild(dom, &mut state.1);
        assert(self.0.rebuilt(old(dom), &middle, &old(state).0, &state.0) && self.1.rebuilt(
            &middle,
            dom,
            &old(state).1,
            &state.1,
        ));
    }
}

impl<A: RenderHtml, B: RenderHtml> RenderHtml for (A, B) {
    const EXISTS: bool = true;

    open spec fn html(&self, position: Position, escape: bool, mark_branches: bool) -> Seq<char> {
        self.0.html(position, escape, mark_branches) + self.1.html(
            self.0.position_after(position),
            escape,
            mark_branches,
        )
    }

    open spec fn position_after(&self, position: Position) -> Position {
        self.1.position_after(self.0.position_after(position))
    }

    fn dry_resolve(&mut self) {
        self.0.dry_resolve();
        self.1.dry_resolve();
    }

    open spec fn estimate(&self) -> usize {
        saturated(self.0.estimate(), self.1.estimate())
    }

    fn html_len(&self) -> (len: usize) {
        let len: usize = self.0.html_len().saturating_add(self.1.html_len());
        assert(len == self.estimate());
        len
    }

    fn to_html_with_buf(
        self,
        buf: &mut String,
        position: &mut Position,
        escape: bool,
        mark_branches: bool,
    ) {
        let ghost start = buf@;
        let ghost first = self.0.html(*position, escape, mark_branches);
        let ghost second = self.1.html(self.0.position_after(*position), escape, mark_branches);
        self.0.to_html_with_buf(buf, position, escape, mark_branches);
        self.1.to_html_with_buf(buf, position, escape, mark_branches);
        assert(buf@ =~= start + (first + second));
        assert(self.position_after(*old(position)) == self.1.position_after(
            self.0.position_after(*old(position)),
        ));
    }
}


impl<A: Mountable> Mountable for (A,) {
    open spec fn roots(&self) -> Seq<NodeId> {
        self.0.roots()
    }

    open spec fn anchor(&self, doc: &Arena) -> Option<NodeId> {
        self.0.anchor(doc)
    }

    proof fn lemma_anchor(&self, doc: &Arena) {
        self.0.lemma_anchor(doc);
    }

    open spec fn released(&self, before: &Dom, after: &Dom, state: &(A,)) -> bool {
        self.0.released(before, after, &state.0)
    }

    open spec fn unmounted(&self, before: &Dom, after: &Dom, state: &(A,)) -> bool {
        self.0.unmounted(before, after, &state.0)
    }

    fn release(&mut self, dom: &mut Dom) {
        self.0.release(dom);
    }

    fn unmount(&mut self, dom: &mut Dom) {
        self.0.unmount(dom);
    }

    fn mount(&mut self, dom: &mut Dom, parent: &Element, marker: Option<&Node>) {
        self.0.mount(dom, parent, marker);
    }
}

impl<A: Anchor> Anchor for (A,) {
    fn insert_before_this<M: Mountable>(&self, dom: &mut Dom, child: &mut M) -> (inserted: bool) {
        proof {
            self.0.lemma_anchor(&dom.doc);
        }
        self.0.insert_before_this(dom, child)
    }
}

impl<A: Render> Render for (A,) {
    type State = (A::State,);

    open spec fn shown_by(&self, state: &(A::State,)) -> bool {
        self.0.shown_by(&state.0)
    }

    open spec fn built(&self, before: &Dom, after: &Dom, state: &(A::State,)) -> bool {
        self.0.built(before, after, &state.0)
    }

    open spec fn rebuilt(
        &self,
        before: &Dom,
        after: &Dom,
        was: &(A::State,),
        state: &(A::State,),
    ) -> bool {
        self.0.rebuilt(before, after, &was.0, &state.0)
    }

    fn build(self, dom: &mut Dom) -> (state: (A::State,)) {
        (self.0.build(dom),)
    }

    fn rebuild(self, dom: &mut Dom, state: &mut (A::State,)) {
        self.0.rebuild(dom, &mut state.0);
    }
}

impl<A: RenderHtml> RenderHtml for (A,) {
    const EXISTS: bool = true;

    open spec fn html(&self, position: Position, escape: bool, mark_branches: bool) -> Seq<char> {
        self.0.html(position, escape, mark_branches)
    }

    open spec fn position_after(&self, position: Position) -> Position {
        self.0.position_after(position)
    }

    fn dry_resolve(&mut self) {
        self.0.dry_resolve();
    }

    open spec fn estimate(&self) -> usize {
        self.0.estimate()
    }

    fn html_len(&self) -> (len: usize) {
        let len: usize = self.0.html_len();
        assert(len == self.estimate());
        len
    }

    fn to_html_with_buf(
        self,
        buf: &mut String,
        position: &mut Position,
        escape: bool,
        mark_branches: bool,
    ) {
        self.0.to_html_with_buf(buf, position, escape, mark_branches);
        assert(self.position_after(*old(position)) == self.0.position_after(*old(position)));
    }
}

impl<A: Mountable, B: Mountable, C: Mountable> Mountable for (A, B, C) {
    open spec fn roots(&self) -> Seq<NodeId> {
        self.0.roots() + self.1.roots() + self.2.roots()
    }

    open spec fn anchor(&self, doc: &Arena) -> Option<NodeId> {
        match self.0.anchor(doc) {
            Some(r) => Some(r),
            None => match self.1.anchor(doc) {
                Some(r) => Some(r),
                None => self.2.anchor(doc),
            },
        }
    }

    proof fn lemma_anchor(&self, doc: &Arena) {
        self.0.lemma_anchor(doc);
        self.1.lemma_anchor(doc);
        self.2.lemma_anchor(doc);
    }

    open spec fn released(&self, before: &Dom, after: &Dom, state: &(A, B, C)) -> bool {
        exists|one: Dom, two: Dom|
            #![trigger self.0.released(before, &one, &state.0), self.2.released(&two, after, &state.2)]
            self.0.released(before, &one, &state.0) && self.1.released(&one, &two, &state.1)
                && self.2.released(&two, after, &state.2)
    }

    open spec fn unmounted(&self, before: &Dom, after: &Dom, state: &(A, B, C)) -> bool {
        exists|one: Dom, two: Dom|
            #![trigger self.0.unmounted(before, &one, &state.0), self.2.unmounted(&two, after, &state.2)]
            self.0.unmounted(before, &one, &state.0) && self.1.unmounted(&one, &two, &state.1)
                && self.2.unmounted(&two, after, &state.2)
    }

    fn release(&mut self, dom: &mut Dom) {
        self.0.release(dom);
        let ghost one = *dom;
        self.1.release(dom);
        let ghost two = *dom;
        self.2.release(dom);
        proof {
            assert(old(self).0.released(old(dom), &one, &self.0) && old(self).1.released(
                &one,
                &two,
                &self.1,
            ) && old(self).2.released(&two, dom, &self.2));
            vstd::map_lib::lemma_submap_of_trans(two.events@, one.events@, old(dom).events@);
            vstd::map_lib::lemma_submap_of_trans(dom.events@, two.events@, old(dom).events@);
        }
    }

    fn unmount(&mut self, dom: &mut Dom) {
        let ghost first = self.0.roots();
        let ghost second = self.1.roots();
        let ghost third = self.2.roots();
        proof {
            let all = first + second + third;
            if first.contains(ROOT) {
                let k = choose|k: int| 0 <= k < first.len() && first[k] == ROOT;
                assert(all[k] == ROOT);
            }
            if second.contains(ROOT) {
                let k = choose|k: int| 0 <= k < second.len() && second[k] == ROOT;
                assert(all[first.len() + k] == ROOT);
            }
            if third.contains(ROOT) {
                let k = choose|k: int| 0 <= k < third.len() && third[k] == ROOT;
                assert(all[first.len() + second.len() + k] == ROOT);
            }
        }
        self.0.unmount(dom);
        let ghost one = *dom;
        self.1.unmount(dom);
        let ghost two = *dom;
        self.2.unmount(dom);
        proof {
            assert(old(self).0.unmounted(old(dom), &one, &self.0) && old(self).1.unmounted(
                &one,
                &two,
                &self.1,
            ) && old(self).2.unmounted(&two, dom, &self.2));
            two.doc.lemma_without_compose(&one.doc, &old(dom).doc, first, second);
            dom.doc.lemma_without_compose(&two.doc, &old(dom).doc, first + second, third);
            vstd::map_lib::lemma_submap_of_trans(two.events@, one.events@, old(dom).events@);
            vstd::map_lib::lemma_submap_of_trans(dom.events@, two.events@, old(dom).events@);
        }
    }

    fn mount(&mut self, dom: &mut Dom, parent: &Element, marker: Option<&Node>) {
        let ghost first = self.0.roots();
        let ghost second = self.1.roots();
        let ghost third = self.2.roots();
        let ghost before = dom.doc;
        let ghost target = insertion_parent(before@, parent.0.0, opt_id(marker));
        let ghost index = insertion_index(before@, parent.0.0, opt_id(marker));
        proof {
            before.lemma_adoptable_split(first + second, third, target);
            before.lemma_adoptable_split(first, second, target);
            if let Some(m) = marker {
                assert(before@[target].children.contains(m.0));
            }
        }
        self.0.mount(dom, parent, marker);
        let ghost one = dom.doc;
        proof {
            one.lemma_adopts_first(&before, parent.0.0, opt_id(marker), first, second);
        }
        self.1.mount(dom, parent, marker);
        let ghost two = dom.doc;
        proof {
            two.lemma_adopts_both(&one, &before, target, index, first, second);
            two.lemma_adopts_first(&before, parent.0.0, opt_id(marker), first + second, third);
        }
        self.2.mount(dom, parent, marker);
        proof {
            dom.doc.lemma_adopts_both(&two, &before, target, index, first + second, third);
        }
    }
}

impl<A: Anchor, B: Anchor, C: Anchor> Anchor for (A, B, C) {
    fn insert_before_this<M: Mountable>(&self, dom: &mut Dom, child: &mut M) -> (inserted: bool) {
        proof {
            self.0.lemma_anchor(&dom.doc);
            self.1.lemma_anchor(&dom.doc);
            self.2.lemma_anchor(&dom.doc);
        }
        if self.0.insert_before_this(dom, child) {
            true
        } else if self.1.insert_before_this(dom, child) {
            true
        } else {
            self.2.insert_before_this(dom, child)
        }
    }
}

impl<A: Render, B: Render, C: Render> Render for (A, B, C) {
    type State = (A::State, B::State, C::State);

    open spec fn shown_by(&self, state: &(A::State, B::State, C::State)) -> bool {
        self.0.shown_by(&state.0) && self.1.shown_by(&state.1) && self.2.shown_by(&state.2)
    }

    open spec fn built(
        &self,
        before: &Dom,
        after: &Dom,
        state: &(A::State, B::State, C::State),
    ) -> bool {
        exists|one: Dom, two: Dom|
            #![trigger self.0.built(before, &one, &state.0), self.2.built(&two, after, &state.2)]
            self.0.built(before, &one, &state.0) && self.1.built(&one, &two, &state.1)
                && self.2.built(&two, after, &state.2)
    }

    open spec fn rebuilt(
        &self,
        before: &Dom,
        after: &Dom,
        was: &(A::State, B::State, C::State),
        state: &(A::State, B::State, C::State),
    ) -> bool {
        exists|one: Dom, two: Dom|
            #![trigger self.0.rebuilt(before, &one, &was.0, &state.0), self.2.rebuilt(&two, after, &was.2, &state.2)]
            self.0.rebuilt(before, &one, &was.0, &state.0) && self.1.rebuilt(
                &one,
                &two,
                &was.1,
                &state.1,
            ) && self.2.rebuilt(&two, after, &was.2, &state.2)
    }

    fn build(self, dom: &mut Dom) -> (state: (A::State, B::State, C::State)) {
        let first = self.0.build(dom);
        let ghost one = *dom;
        let second = self.1.build(dom);
        let ghost two = *dom;
        let third = self.2.build(dom);
        let state = (first, second, third);
        proof {
            assert(self.0.built(old(dom), &one, &state.0) && self.1.built(&one, &two, &state.1)
                && self.2.built(&two, dom, &state.2));
            two.lemma_extends_trans(&one, old(dom));
            dom.lemma_extends_trans(&two, old(dom));
            two.doc.lemma_detached_concat(&one.doc, first.roots(), second.roots());
            let pair = first.roots() + second.roots();
            assert forall|k: int| 0 <= k < third.roots().len() implies !two.doc@.contains_key(
                #[trigger] third.roots()[k],
            ) by {}
            dom.doc.lemma_detached_concat(&two.doc, pair, third.roots());
            assert forall|k: int| 0 <= k < state.roots().len() implies !old(dom).doc@.contains_key(
                #[trigger] state.roots()[k],
            ) by {
                if k < first.roots().len() {
                    assert(state.roots()[k] == first.roots()[k]);
                } else if k < pair.len() {
                    assert(state.roots()[k] == second.roots()[k - first.roots().len()]);
                } else {
                    assert(state.roots()[k] == third.roots()[k - pair.len()]);
                }
            }
        }
        state
    }

    fn rebuild(self, dom: &mut Dom, state: &mut (A::State, B::State, C::State)) {
        self.0.rebuild(dom, &mut state.0);
        let ghost one = *dom;
        self.1.rebuild(dom, &mut state.1);
        let ghost two = *dom;
        self.2.rebuild(dom, &mut state.2);
        assert(self.0.rebuilt(old(dom), &one, &old(state).0, &state.0) && self.1.rebuilt(
            &one,
            &two,
            &old(state).1,
            &state.1,
        ) && self.2.rebuilt(&two, dom, &old(state).2, &state.2));
    }
}

impl<A: RenderHtml, B: RenderHtml, C: RenderHtml> RenderHtml for (A, B, C) {
    const EXISTS: bool = true;

    open spec fn html(&self, position: Position, escape: bool, mark_branches: bool) -> Seq<char> {
        self.0.html(position, escape, mark_branches) + self.1.html(
            self.0.position_after(position),
            escape,
            mark_branches,
        ) + self.2.html(
            self.1.position_after(self.0.position_after(position)),
            escape,
            mark_branches,
        )
    }

    open spec fn position_after(&self, position: Position) -> Position {
        self.2.position_after(self.1.position_after(self.0.position_after(position)))
    }

    fn dry_resolve(&mut self) {
        self.0.dry_resolve();
        self.1.dry_resolve();
        self.2.dry_resolve();
    }

    open spec fn estimate(&self) -> usize {
        saturated(saturated(self.0.estimate(), self.1.estimate()), self.2.estimate())
    }

    fn html_len(&self) -> (len: usize) {
        let len: usize = self.0.html_len().saturating_add(self.1.html_len()).saturating_add(self.2.html_len());
        assert(len == self.estimate());
        len
    }

    fn to_html_with_buf(
        self,
        buf: &mut String,
        position: &mut Position,
        escape: bool,
        mark_branches: bool,
    ) {
        let ghost start = buf@;
        let ghost whole = self.html(*position, escape, mark_branches);
        self.0.to_html_with_buf(buf, position, escape, mark_branches);
        self.1.to_html_with_buf(buf, position, escape, mark_branches);
        self.2.to_html_with_buf(buf, position, escape, mark_branches);
        assert(buf@ =~= start + whole);
        assert(self.position_after(*old(position)) == self.2.position_after(
            self.1.position_after(self.0.position_after(*old(position))),
        ));
    }
}


/// A tuple that can take one more member.
pub trait NextTuple<T>: Sized {
    /// The tuple with one more member.
    type Output;

    /// What the tuple is with `value` as its last member.
    spec fn appended(self, value: T) -> Self::Output;

    /// Adds `value` as the last member of the tuple.
    fn next_tuple(self, value: T) -> (output: Self::Output)
        ensures
            output == self.appended(value),
    ;
}

impl<T> NextTuple<T> for () {
    type Output = (T,);

    open spec fn appended(self, value: T) -> (T,) {
        (value,)
    }

    fn next_tuple(self, value: T) -> (output: (T,)) {
        (value,)
    }
}

impl<A, T> NextTuple<T> for (A,) {
    type Output = (A, T);

    open spec fn appended(self, value: T) -> (A, T) {
        (self.0, value)
    }

    fn next_tuple(self, value: T) -> (output: (A, T)) {
        (self.0, value)
    }
}

impl<A, B, T> NextTuple<T> for (A, B) {
    type Output = (A, B, T);

    open spec fn appended(self, value: T) -> (A, B, T) {
        (self.0, self.1, value)
    }

    fn next_tuple(self, value: T) -> (output: (A, B, T)) {
        (self.0, self.1, value)
    }
}

} // verus!
