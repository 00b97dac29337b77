//! Mounting: how a view comes into a document for the first time.
use crate::arena::{DataView, NodeId, WidgetView, ROOT};
use crate::dom::{Element, Node};
use crate::into_view::IntoView;
use crate::renderer::Dom;
use crate::view::{Mountable, Render};
use vstd::prelude::*;

verus! {

impl Dom {
    /// Makes the `<html>` element that holds all that is mounted, as the
    /// last child of the document root.
    pub fn create_root_element(&mut self) -> (root: Element)
        requires
            old(self).wf(),
        ensures
            final(self).wf(),
            final(self).events == old(self).events,
            final(self).doc.grows_under(&old(self).doc, ROOT),
            !old(self).doc@.contains_key(root.0.0),
            final(self).doc@[ROOT].children == old(self).doc@[ROOT].children.push(root.0.0),
            final(self).doc@.contains_key(root.0.0),
            final(self).doc@[root.0.0] == (crate::arena::NodeView {
                parent: Some(ROOT),
                children: Seq::empty(),
                data: DataView::Element {
                    tag: "html"@,
                    namespace: None,
                    attrs: Seq::empty(),
                    widget: WidgetView::Plain,
                },
            }),
    {
        let root = self.create_element("html", None);
        let ghost made = *self;
        proof {
            made.doc.lemma_new_node_written(
                &made.doc,
                &old(self).doc,
                root.0.0,
                made.doc@[root.0.0].data,
            );
            made.doc.lemma_new_nodes_adoptable(&old(self).doc, seq![root.0.0], ROOT);
        }
        self.insert_node(&Element(Node(ROOT)), &root.0, None);
        proof {
            self.doc.lemma_appended(&made.doc, &old(self).doc, ROOT, root.0.0);
        }
        root
    }
}

impl Dom {
    /// Removes all children of `parent`, each with everything under it.
    pub fn clear_children(&mut self, parent: &Element)
        requires
            old(self).wf(),
            old(self).doc@.contains_key(parent.0.0),
        ensures
            final(self).events == old(self).events,
            final(self).doc.without(&old(self).doc, old(self).doc@[parent.0.0].children),
            final(self).doc@.contains_key(parent.0.0),
            final(self).doc@[parent.0.0].children == Seq::<NodeId>::empty(),
    {
        let ghost kids = self.doc@[parent.0.0].children;
        let ghost mut done: int = 0;
        proof {
            self.doc.lemma_without_nothing(kids.take(0));
            assert(kids.skip(0) =~= kids);
        }
        loop
            invariant
                old(self).wf(),
                self.events == old(self).events,
                kids == old(self).doc@[parent.0.0].children,
                old(self).doc@.contains_key(parent.0.0),
                0 <= done <= kids.len(),
                self.doc.without(&old(self).doc, kids.take(done)),
                self.doc@.contains_key(parent.0.0),
                self.doc@[parent.0.0].children == kids.skip(done),
            ensures
                self.doc.without(&old(self).doc, kids),
                self.doc@[parent.0.0].children == Seq::<NodeId>::empty(),
            decreases kids.len() - done,
        {
            let ghost middle = self.doc;
            match self.doc.first_child(parent.0.0) {
                Some(child) => {
                    assert(middle@.contains_key(middle@[parent.0.0].children[0]));
                    self.doc.remove_node(child);
                    proof {
                        self.doc.lemma_child_cleared(&middle, &old(self).doc, parent.0.0, kids, done);
                        done = done + 1;
                    }
                },
                None => {
                    proof {
                        assert(kids.skip(done).len() == 0);
                        assert(kids.take(done) =~= kids);
                    }
                    break ;
                },
            }
        }
    }
}

/// The steps of mounting the view `view` under `parent`, from the renderer
/// `before` to the renderer `after`: the view is built, which leaves
/// `built`, and its nodes are put behind the children that `parent` has.
pub open spec fn mount_steps<N: IntoView>(
    view: N,
    before: &Dom,
    built: &Dom,
    after: &Dom,
    parent: NodeId,
    state: &N::State,
) -> bool {
    &&& view.built(before, built, state)
    &&& after.events == built.events
    &&& after.doc.adopts(
        &built.doc,
        parent,
        built.doc@[parent].children.len() as int,
        state.roots(),
    )
}

/// Builds the view `view` and mounts it as the last of the children of
/// `parent`. Returns the retained state of the view.
pub fn mount_to<N: IntoView>(dom: &mut Dom, parent: Element, view: N) -> (state: N::State)
    requires
        old(dom).wf(),
        old(dom).doc@.contains_key(parent.0.0),
    ensures
        final(dom).wf(),
        exists|built: Dom| #[trigger]
            mount_steps(view, old(dom), &built, final(dom), parent.0.0, &state),
        old(dom).events@.submap_of(final(dom).events@),
        view.shown_by(&state),
        final(dom).doc.grows_under(&old(dom).doc, parent.0.0),
        final(dom).doc@[parent.0.0].children == old(dom).doc@[parent.0.0].children + state.roots(),
        forall|k: int|
            0 <= k < state.roots().len() ==> !old(dom).doc@.contains_key(
                #[trigger] state.roots()[k],
            ) && final(dom).doc@.contains_key(state.roots()[k])
                && final(dom).doc@[state.roots()[k]].parent == Some(parent.0.0),
{
    let mut state = view.into_view().build(dom);
    let ghost built = *dom;
    proof {
        built.doc.lemma_new_nodes_adoptable(&old(dom).doc, state.roots(), parent.0.0);
    }
    state.mount(dom, &parent, None);
    proof {
        dom.doc.lemma_mounted(&built.doc, &old(dom).doc, parent.0.0, state.roots());
        assert(mount_steps(view, old(dom), &built, dom, parent.0.0, &state));
    }
    state
}

} // verus!
