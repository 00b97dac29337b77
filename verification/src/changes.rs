//! How one state of a document differs from another: the relations in which
//! the operations on a document put what they leave to what they found, and
//! what follows where one operation comes after another.
use crate::arena::{
    ancestor_in, insertion_index, insertion_parent, lemma_ancestor_depth, lemma_ancestor_live,
    pruned, spliced, subtree, with_data, Arena, DataView, NodeId, NodeView, StyleSignal, ROOT,
};
use vstd::prelude::*;

verus! {

impl Arena {
    /// `self` is `before` with one more node: the detached node `id`, which
    /// holds `data` and whose handle was free in `before`.
    pub open spec fn creates(&self, before: &Arena, id: NodeId, data: DataView) -> bool {
        &&& self.wf()
        &&& !before@.contains_key(id)
        &&& !before.tombstones().contains(id)
        &&& self@ == before@.insert(id, NodeView { parent: None, children: Seq::empty(), data })
        &&& self.tombstones() == before.tombstones()
        &&& self.pending() == before.pending()
        &&& forall|a: NodeId, x: NodeId| x != id ==> self.ancestor(a, x) == before.ancestor(a, x)
    }

    /// `self` is `before` with the data of `id` replaced by `data` and the
    /// style signals `raised` added.
    pub open spec fn rewrites(
        &self,
        before: &Arena,
        id: NodeId,
        data: DataView,
        raised: Seq<StyleSignal>,
    ) -> bool {
        &&& self.wf()
        &&& self@ == with_data(before@, id, data)
        &&& self.pending() == before.pending() + raised
        &&& self.tombstones() == before.tombstones()
        &&& forall|a: NodeId, x: NodeId| self.ancestor(a, x) == before.ancestor(a, x)
    }

    /// `self` is `before` with the detached nodes `nodes` put under `target`
    /// at position `index`.
    pub open spec fn adopts(
        &self,
        before: &Arena,
        target: NodeId,
        index: int,
        nodes: Seq<NodeId>,
    ) -> bool {
        &&& self.wf()
        &&& self@ == spliced(before@, target, index, nodes)
        &&& self.pending() == before.pending()
        &&& self.tombstones() == before.tombstones()
        &&& forall|a: NodeId, x: NodeId|
            self.ancestor(a, x) == (before.ancestor(a, x) || (before.any_ancestor(nodes, x)
                && before.ancestor(a, target)))
    }

    /// `self` is `before` without `id` and what stood under it.
    pub open spec fn drops(&self, before: &Arena, id: NodeId) -> bool {
        &&& self.wf()
        &&& self@ == pruned(before@, before.depth(), id)
        &&& self.tombstones() == before.tombstones().union(
            subtree(before@, before.depth(), id),
        )
        &&& self.pending() == before.pending()
        &&& forall|a: NodeId, x: NodeId|
            self@.contains_key(x) ==> self.ancestor(a, x) == before.ancestor(a, x)
    }

    /// `self` is `before` and more: every node of `before` is live and
    /// unchanged, with the ancestors it had, no handle was given up, and the
    /// style signals of `before` are still pending, in front of any raised
    /// since.
    pub open spec fn extends(&self, before: &Arena) -> bool {
        &&& forall|x: NodeId| #[trigger]
            before@.contains_key(x) ==> self@.contains_key(x) && self@[x] == before@[x]
        &&& self.tombstones() == before.tombstones()
        &&& before.pending().is_prefix_of(self.pending())
        &&& forall|a: NodeId, x: NodeId|
            before@.contains_key(x) ==> self.ancestor(a, x) == before.ancestor(a, x)
    }

    /// A node that was made after `before` is no ancestor of a node of
    /// `before`.
    pub proof fn lemma_new_node_is_no_ancestor(&self, before: &Arena, new: NodeId, x: NodeId)
        requires
            self.wf(),
            before.wf(),
            self.extends(before),
            !before@.contains_key(new),
            before@.contains_key(x),
        ensures
            !self.ancestor(new, x),
    {
        if before.ancestor(new, x) {
            lemma_ancestor_live(before@, before.depth(), new, x);
        }
    }

    /// A node of `before` is no ancestor of a node that was made after
    /// `before`.
    pub proof fn lemma_old_node_is_no_ancestor(&self, before: &Arena, a: NodeId, new: NodeId)
        requires
            self.wf(),
            before.wf(),
            self.extends(before),
            before@.contains_key(a),
            !before@.contains_key(new),
        ensures
            !self.ancestor(a, new),
        decreases self.depth()[new],
    {
        if self@.contains_key(new) {
            if let Some(p) = self@[new].parent {
                if before@.contains_key(p) {
                    assert(self@[p].children.contains(new));
                    let at = choose|at: int|
                        0 <= at < before@[p].children.len() && before@[p].children[at] == new;
                    assert(before@.contains_key(before@[p].children[at]));
                } else {
                    self.lemma_old_node_is_no_ancestor(before, a, p);
                }
            }
        }
    }

    /// `self` is `before` without the nodes `roots` and what stood under
    /// them: exactly the other nodes are live, each with the data, parent and
    /// ancestors that it had, and with the children that it had unless one of
    /// `roots` was among them.
    pub open spec fn without(&self, before: &Arena, roots: Seq<NodeId>) -> bool {
        &&& self.wf()
        &&& forall|x: NodeId| #[trigger]
            before@.contains_key(x) ==> (self@.contains_key(x) <==> !before.any_ancestor(roots, x))
        &&& forall|x: NodeId| #[trigger]
            self@.contains_key(x) ==> before@.contains_key(x) && self@[x].data == before@[x].data
                && self@[x].parent == before@[x].parent
        &&& forall|x: NodeId|
            self@.contains_key(x) && !(exists|k: int|
                0 <= k < roots.len() && before@.contains_key(#[trigger] roots[k])
                    && before@[roots[k]].parent == Some(x)) ==> #[trigger] self@[x].children
                == before@[x].children
        &&& before.tombstones().subset_of(self.tombstones())
        &&& self.pending() == before.pending()
        &&& forall|a: NodeId, x: NodeId|
            self@.contains_key(x) ==> self.ancestor(a, x) == before.ancestor(a, x)
    }

    /// Removing one node is removing the list that holds it alone.
    pub proof fn lemma_drops_without(&self, before: &Arena, id: NodeId)
        requires
            before.wf(),
            before@.contains_key(id),
            self.drops(before, id),
        ensures
            self.without(before, seq![id]),
    {
        let roots = seq![id];
        assert forall|x: NodeId| before.any_ancestor(roots, x) == before.ancestor(id, x) by {
            if before.ancestor(id, x) {
                assert(ancestor_in(before@, before.depth(), roots[0], x));
            }
        }
        assert forall|x: NodeId|
            self@.contains_key(x) && !(exists|k: int|
                0 <= k < roots.len() && before@.contains_key(#[trigger] roots[k])
                    && before@[roots[k]].parent == Some(x)) implies #[trigger] self@[x].children
            == before@[x].children by {
            assert(roots[0] == id);
        }
    }

    /// Nothing changes where a list of nodes is removed that holds no live
    /// node.
    pub proof fn lemma_without_nothing(&self, roots: Seq<NodeId>)
        requires
            self.wf(),
            forall|k: int| 0 <= k < roots.len() ==> !self@.contains_key(#[trigger] roots[k]),
        ensures
            self.without(self, roots),
    {
        assert forall|x: NodeId| #[trigger] self@.contains_key(x) implies !self.any_ancestor(
            roots,
            x,
        ) by {
            if self.any_ancestor(roots, x) {
                let k = choose|k: int|
                    0 <= k < roots.len() && ancestor_in(self@, self.depth(), #[trigger] roots[k], x);
                lemma_ancestor_live(self@, self.depth(), roots[k], x);
            }
        }
    }

    /// Whether `nodes` can be mounted: they are distinct live nodes other
    /// than the document root, each detached.
    pub open spec fn detached(&self, nodes: Seq<NodeId>) -> bool {
        &&& nodes.no_duplicates()
        &&& forall|k: int|
            0 <= k < nodes.len() ==> self@.contains_key(#[trigger] nodes[k]) && nodes[k] != ROOT
                && self@[nodes[k]].parent is None
    }

    /// One of two lists of nodes joined is an ancestor of `x` where one of
    /// either list is.
    pub proof fn lemma_any_ancestor_concat(&self, first: Seq<NodeId>, second: Seq<NodeId>, x: NodeId)
        ensures
            self.any_ancestor(first + second, x) == (self.any_ancestor(first, x)
                || self.any_ancestor(second, x)),
    {
        let both = first + second;
        if self.any_ancestor(both, x) {
            let k = choose|k: int|
                0 <= k < both.len() && ancestor_in(self@, self.depth(), #[trigger] both[k], x);
            if k < first.len() {
                assert(ancestor_in(self@, self.depth(), first[k], x));
            } else {
                assert(ancestor_in(self@, self.depth(), second[k - first.len()], x));
            }
        }
        if self.any_ancestor(first, x) {
            let k = choose|k: int|
                0 <= k < first.len() && ancestor_in(self@, self.depth(), #[trigger] first[k], x);
            assert(ancestor_in(self@, self.depth(), both[k], x));
        }
        if self.any_ancestor(second, x) {
            let k = choose|k: int|
                0 <= k < second.len() && ancestor_in(self@, self.depth(), #[trigger] second[k], x);
            assert(ancestor_in(self@, self.depth(), both[first.len() + k], x));
        }
    }

    /// Extending is transitive.
    pub proof fn lemma_extends_trans(&self, middle: &Arena, before: &Arena)
        requires
            middle.extends(before),
            self.extends(middle),
        ensures
            self.extends(before),
    {
        assert forall|x: NodeId| #[trigger] before@.contains_key(x) implies self@.contains_key(x)
            && self@[x] == before@[x] by {
            assert(middle@.contains_key(x));
        }
    }

    /// Removing one list of nodes and then another is removing both.
    pub proof fn lemma_without_compose(
        &self,
        middle: &Arena,
        before: &Arena,
        first: Seq<NodeId>,
        second: Seq<NodeId>,
    )
        requires
            middle.without(before, first),
            self.without(middle, second),
        ensures
            self.without(before, first + second),
    {
        let both = first + second;
        assert forall|x: NodeId| #[trigger] before@.contains_key(x) implies (self@.contains_key(x)
            <==> !before.any_ancestor(both, x)) by {
            before.lemma_any_ancestor_concat(first, second, x);
            if self@.contains_key(x) {
                assert(middle@.contains_key(x));
            }
            if middle@.contains_key(x) {
                assert forall|k: int| 0 <= k < second.len() implies middle.ancestor(
                    #[trigger] second[k],
                    x,
                ) == before.ancestor(second[k], x) by {}
                if middle.any_ancestor(second, x) {
                    let k = choose|k: int|
                        0 <= k < second.len() && ancestor_in(
                            middle@,
                            middle.depth(),
                            #[trigger] second[k],
                            x,
                        );
                    assert(before.ancestor(second[k], x));
                }
                if before.any_ancestor(second, x) {
                    let k = choose|k: int|
                        0 <= k < second.len() && ancestor_in(
                            before@,
                            before.depth(),
                            #[trigger] second[k],
                            x,
                        );
                    assert(middle.ancestor(second[k], x));
                }
            }
        }
        assert forall|x: NodeId|
            self@.contains_key(x) && !(exists|k: int|
                0 <= k < both.len() && before@.contains_key(#[trigger] both[k])
                    && before@[both[k]].parent == Some(x)) implies #[trigger] self@[x].children
            == before@[x].children by {
            assert(middle@.contains_key(x));
            if exists|k: int|
                0 <= k < first.len() && before@.contains_key(#[trigger] first[k])
                    && before@[first[k]].parent == Some(x) {
                let k = choose|k: int|
                    0 <= k < first.len() && before@.contains_key(#[trigger] first[k])
                        && before@[first[k]].parent == Some(x);
                assert(both[k] == first[k]);
            }
            if exists|k: int|
                0 <= k < second.len() && middle@.contains_key(#[trigger] second[k])
                    && middle@[second[k]].parent == Some(x) {
                let k = choose|k: int|
                    0 <= k < second.len() && middle@.contains_key(#[trigger] second[k])
                        && middle@[second[k]].parent == Some(x);
                assert(both[first.len() + k] == second[k]);
            }
        }
    }

    /// After the first of two lists of nodes has been put under `target`,
    /// the second can be put right behind it.
    pub proof fn lemma_adopts_first(
        &self,
        before: &Arena,
        parent: NodeId,
        reference: Option<NodeId>,
        first: Seq<NodeId>,
        second: Seq<NodeId>,
    )
        requires
            before.wf(),
            match reference {
                Some(r) => before@.contains_key(r) && before@[r].parent is Some,
                None => before@.contains_key(parent),
            },
            before.adoptable(first + second, insertion_parent(before@, parent, reference)),
            self.adopts(
                before,
                insertion_parent(before@, parent, reference),
                insertion_index(before@, parent, reference),
                first,
            ),
        ensures
            match reference {
                Some(r) => self@.contains_key(r) && self@[r].parent is Some,
                None => self@.contains_key(parent),
            },
            insertion_parent(self@, parent, reference) == insertion_parent(
                before@,
                parent,
                reference,
            ),
            insertion_index(self@, parent, reference) == insertion_index(before@, parent, reference)
                + first.len(),
            self.adoptable(second, insertion_parent(before@, parent, reference)),
            before.adoptable(first, insertion_parent(before@, parent, reference)),
    {
        let target = insertion_parent(before@, parent, reference);
        let index = insertion_index(before@, parent, reference);
        let both = first + second;
        let kids = before@[target].children;
        assert forall|k: int| 0 <= k < first.len() implies both[k] == first[k] by {}
        assert forall|k: int| 0 <= k < second.len() implies both[first.len() + k] == second[k] by {}
        assert forall|x: NodeId|
            before.any_ancestor(both, x) == (before.any_ancestor(first, x) || before.any_ancestor(
                second,
                x,
            )) by {
            before.lemma_any_ancestor_concat(first, second, x);
        }
        assert(first.no_duplicates()) by {
            assert forall|i: int, j: int|
                0 <= i < first.len() && 0 <= j < first.len() && i != j implies first[i]
                != first[j] by {
                assert(both[i] != both[j]);
            }
        }
        assert(second.no_duplicates()) by {
            assert forall|i: int, j: int|
                0 <= i < second.len() && 0 <= j < second.len() && i != j implies second[i]
                != second[j] by {
                assert(both[first.len() + i] != both[first.len() + j]);
            }
        }
        assert forall|k: int| 0 <= k < second.len() implies !first.contains(
            #[trigger] second[k],
        ) && second[k] != target by {
            if first.contains(second[k]) {
                let j = choose|j: int| 0 <= j < first.len() && first[j] == second[k];
                assert(both[j] == both[first.len() + k]);
            }
            if second[k] == target {
                assert(ancestor_in(before@, before.depth(), both[first.len() + k], target));
            }
        }
        assert(!self.any_ancestor(second, target)) by {
            if self.any_ancestor(second, target) {
                let k = choose|k: int|
                    0 <= k < second.len() && ancestor_in(
                        self@,
                        self.depth(),
                        #[trigger] second[k],
                        target,
                    );
                assert(self.ancestor(second[k], target));
                assert(before.ancestor(second[k], target));
            }
        }
        match reference {
            Some(r) => {
                assert(kids.contains(r));
                assert(kids[index] == r);
                assert(r != target) by {
                    if r == target {
                        assert(before.depth()[target] < before.depth()[r]);
                    }
                }
                assert(!first.contains(r)) by {
                    if first.contains(r) {
                        let j = choose|j: int| 0 <= j < first.len() && first[j] == r;
                        assert(both[j] == r);
                    }
                }
                let now = self@[target].children;
                assert(now[index + first.len()] == r);
                assert(now.no_duplicates());
                assert(now.index_of(r) == index + first.len());
            },
            None => {},
        }
    }

    /// Putting one list of nodes under `target` and another right behind it
    /// is putting the two lists joined.
    pub proof fn lemma_adopts_both(
        &self,
        middle: &Arena,
        before: &Arena,
        target: NodeId,
        index: int,
        first: Seq<NodeId>,
        second: Seq<NodeId>,
    )
        requires
            before.wf(),
            before@.contains_key(target),
            0 <= index <= before@[target].children.len(),
            before.adoptable(first + second, target),
            middle.adopts(before, target, index, first),
            self.adopts(middle, target, index + first.len(), second),
        ensures
            self.adopts(before, target, index, first + second),
    {
        let both = first + second;
        let kids = before@[target].children;
        assert forall|k: int| 0 <= k < first.len() implies both[k] == first[k] by {}
        assert forall|k: int| 0 <= k < second.len() implies both[first.len() + k] == second[k] by {}
        assert forall|id: NodeId| both.contains(id) <==> first.contains(id) || second.contains(
            id,
        ) by {
            if both.contains(id) {
                let j = choose|j: int| 0 <= j < both.len() && both[j] == id;
                if j < first.len() {
                    assert(first[j] == id);
                } else {
                    assert(second[j - first.len()] == id);
                }
            }
            if first.contains(id) {
                let j = choose|j: int| 0 <= j < first.len() && first[j] == id;
                assert(both[j] == id);
            }
            if second.contains(id) {
                let j = choose|j: int| 0 <= j < second.len() && second[j] == id;
                assert(both[first.len() + j] == id);
            }
        }
        assert forall|k: int| 0 <= k < both.len() implies both[k] != target by {
            if both[k] == target {
                assert(ancestor_in(before@, before.depth(), both[k], target));
            }
        }
        let mid_kids = middle@[target].children;
        assert(mid_kids == kids.subrange(0, index) + first + kids.subrange(
            index,
            kids.len() as int,
        ));
        assert(mid_kids.subrange(0, index + first.len()) + second + mid_kids.subrange(
            index + first.len(),
            mid_kids.len() as int,
        ) =~= kids.subrange(0, index) + both + kids.subrange(index, kids.len() as int));
        assert(self@ =~= spliced(before@, target, index, both));
        assert forall|a: NodeId, x: NodeId|
            self.ancestor(a, x) == (before.ancestor(a, x) || (before.any_ancestor(both, x)
                && before.ancestor(a, target))) by {
            before.lemma_any_ancestor_concat(first, second, x);
            before.lemma_any_ancestor_concat(first, second, target);
            // Ancestry of the second list and of the target in the middle
            // state is that of the first state.
            assert(!before.any_ancestor(first, target));
            assert(middle.ancestor(a, target) == before.ancestor(a, target));
            if middle.any_ancestor(second, x) {
                let k = choose|k: int|
                    0 <= k < second.len() && ancestor_in(
                        middle@,
                        middle.depth(),
                        #[trigger] second[k],
                        x,
                    );
                assert(middle.ancestor(second[k], x));
                if !before.ancestor(second[k], x) {
                    assert(before.ancestor(second[k], target));
                    assert(ancestor_in(before@, before.depth(), both[first.len() + k], target));
                }
                assert(ancestor_in(before@, before.depth(), second[k], x));
            }
            if before.any_ancestor(second, x) {
                let k = choose|k: int|
                    0 <= k < second.len() && ancestor_in(
                        before@,
                        before.depth(),
                        #[trigger] second[k],
                        x,
                    );
                assert(middle.ancestor(second[k], x));
                assert(ancestor_in(middle@, middle.depth(), second[k], x));
            }
        }
    }

    /// Where two lists of nodes joined can be put under `target`, each of
    /// them can.
    pub proof fn lemma_adoptable_split(&self, first: Seq<NodeId>, second: Seq<NodeId>, target: NodeId)
        requires
            self.adoptable(first + second, target),
        ensures
            self.adoptable(first, target),
            self.adoptable(second, target),
    {
        let both = first + second;
        assert forall|k: int| 0 <= k < first.len() implies both[k] == first[k] by {}
        assert forall|k: int| 0 <= k < second.len() implies both[first.len() + k] == second[k] by {}
        self.lemma_any_ancestor_concat(first, second, target);
        assert forall|i: int, j: int|
            0 <= i < first.len() && 0 <= j < first.len() && i != j implies first[i] != first[j] by {
            assert(both[i] != both[j]);
        }
        assert forall|i: int, j: int|
            0 <= i < second.len() && 0 <= j < second.len() && i != j implies second[i]
            != second[j] by {
            assert(both[first.len() + i] != both[first.len() + j]);
        }
        assert forall|k: int| 0 <= k < first.len() implies self@.contains_key(#[trigger] first[k])
            && first[k] != ROOT && self@[first[k]].parent is None by {
            assert(both[k] == first[k]);
        }
        assert forall|k: int| 0 <= k < second.len() implies self@.contains_key(
            #[trigger] second[k],
        ) && second[k] != ROOT && self@[second[k]].parent is None by {
            assert(both[first.len() + k] == second[k]);
        }
    }

    /// Detached nodes of `before`, and detached nodes made since, are
    /// detached nodes together.
    pub proof fn lemma_detached_concat(&self, before: &Arena, first: Seq<NodeId>, second: Seq<NodeId>)
        requires
            self.extends(before),
            before.detached(first),
            self.detached(second),
            forall|k: int| 0 <= k < second.len() ==> !before@.contains_key(#[trigger] second[k]),
        ensures
            self.detached(first + second),
    {
        let both = first + second;
        assert forall|i: int, j: int|
            0 <= i < both.len() && 0 <= j < both.len() && i != j implies both[i] != both[j] by {
            if i < first.len() && j < first.len() {
                assert(first[i] != first[j]);
            } else if i >= first.len() && j >= first.len() {
                assert(second[i - first.len()] != second[j - first.len()]);
            } else if i < first.len() {
                assert(before@.contains_key(first[i]));
                assert(!before@.contains_key(second[j - first.len()]));
            } else {
                assert(before@.contains_key(first[j]));
                assert(!before@.contains_key(second[i - first.len()]));
            }
        }
        assert forall|k: int| 0 <= k < both.len() implies self@.contains_key(#[trigger] both[k])
            && both[k] != ROOT && self@[both[k]].parent is None by {
            if k < first.len() {
                assert(before@.contains_key(first[k]));
            } else {
                assert(both[k] == second[k - first.len()]);
            }
        }
    }

    /// Nodes that were made after `before` can be put under a node of
    /// `before`.
    pub proof fn lemma_new_nodes_adoptable(&self, before: &Arena, nodes: Seq<NodeId>, target: NodeId)
        requires
            self.wf(),
            before.wf(),
            self.extends(before),
            before@.contains_key(target),
            self.detached(nodes),
            forall|k: int| 0 <= k < nodes.len() ==> !before@.contains_key(#[trigger] nodes[k]),
        ensures
            self.adoptable(nodes, target),
            forall|x: NodeId| before@.contains_key(x) ==> !self.any_ancestor(nodes, x),
    {
        assert forall|x: NodeId| before@.contains_key(x) implies !self.any_ancestor(nodes, x) by {
            if self.any_ancestor(nodes, x) {
                let k = choose|k: int|
                    0 <= k < nodes.len() && ancestor_in(self@, self.depth(), #[trigger] nodes[k], x);
                self.lemma_new_node_is_no_ancestor(before, nodes[k], x);
            }
        }
    }

    /// A new node that was written, and nothing else, since `before` makes
    /// a document that extends `before`, with the new node detached.
    pub proof fn lemma_new_node_written(&self, made: &Arena, before: &Arena, id: NodeId, data: DataView)
        requires
            before.wf(),
            made.creates(before, id, data),
            self.wf(),
            self@.dom() == made@.dom(),
            forall|x: NodeId| #[trigger] made@.contains_key(x) && x != id ==> self@[x] == made@[x],
            self@[id].parent == made@[id].parent,
            self.tombstones() == made.tombstones(),
            made.pending().is_prefix_of(self.pending()),
            forall|a: NodeId, x: NodeId| self.ancestor(a, x) == made.ancestor(a, x),
        ensures
            self.extends(before),
            self.detached(seq![id]),
            self@.contains_key(id),
            !before@.contains_key(id),
    {
        assert(made@.contains_key(id));
        assert forall|x: NodeId| #[trigger] before@.contains_key(x) implies self@.contains_key(x)
            && self@[x] == before@[x] by {
            assert(made@.contains_key(x));
        }
        assert(before@.contains_key(ROOT));
    }

    /// An element that was made after `before`, with children that were made
    /// after it and put under it, makes a document that extends `before`,
    /// with the element detached.
    pub proof fn lemma_element_built(
        &self,
        built: &Arena,
        made: &Arena,
        before: &Arena,
        el: NodeId,
        index: int,
        roots: Seq<NodeId>,
    )
        requires
            before.wf(),
            made.wf(),
            built.wf(),
            made.extends(before),
            made.detached(seq![el]),
            !before@.contains_key(el),
            built.extends(made),
            built.detached(roots),
            forall|k: int| 0 <= k < roots.len() ==> !made@.contains_key(#[trigger] roots[k]),
            self.adopts(built, el, index, roots),
        ensures
            self.extends(before),
            self.detached(seq![el]),
    {
        assert(made@.contains_key(seq![el][0]));
        assert(made@[seq![el][0]].parent is None);
        built.lemma_new_nodes_adoptable(made, roots, el);
        assert forall|x: NodeId| #[trigger] before@.contains_key(x) implies self@.contains_key(x)
            && self@[x] == before@[x] by {
            assert(made@.contains_key(x));
            assert(built@.contains_key(x));
            if roots.contains(x) {
                let k = choose|k: int| 0 <= k < roots.len() && roots[k] == x;
                assert(!made@.contains_key(roots[k]));
            }
        }
        assert(before.pending().is_prefix_of(self.pending())) by {
            let (earlier, between, latest) = (before.pending(), made.pending(), built.pending());
            assert(earlier.len() <= between.len() <= latest.len());
            assert forall|i: int| 0 <= i < earlier.len() implies earlier[i] == latest[i] by {
                assert(earlier[i] == between[i]);
                assert(between[i] == latest[i]);
            }
            assert(earlier =~= latest.subrange(0, earlier.len() as int));
        }
        assert forall|a: NodeId, x: NodeId| before@.contains_key(x) implies self.ancestor(a, x)
            == before.ancestor(a, x) by {
            assert(made@.contains_key(x));
        }
        assert(built@.contains_key(el));
        assert(!roots.contains(el)) by {
            if roots.contains(el) {
                let k = choose|k: int| 0 <= k < roots.len() && roots[k] == el;
                assert(!made@.contains_key(roots[k]));
            }
        }
        assert(seq![el].no_duplicates());
        assert forall|k: int| 0 <= k < seq![el].len() implies self@.contains_key(
            #[trigger] seq![el][k],
        ) && seq![el][k] != ROOT && self@[seq![el][k]].parent is None by {}
    }

    /// `self` is `before` and more, where all that is new stands under
    /// `parent`: every node of `before` is live with the data and the parent
    /// that it had, and with the children that it had, but for `parent`,
    /// whose child list has new nodes at its end.
    pub open spec fn grows_under(&self, before: &Arena, parent: NodeId) -> bool {
        &&& self.wf()
        &&& forall|x: NodeId| #[trigger]
            before@.contains_key(x) ==> self@.contains_key(x) && self@[x].data == before@[x].data
                && self@[x].parent == before@[x].parent && (x != parent ==> self@[x].children
                == before@[x].children)
        &&& before@[parent].children.is_prefix_of(self@[parent].children)
        &&& forall|i: int|
            before@[parent].children.len() <= i < self@[parent].children.len()
                ==> !before@.contains_key(#[trigger] self@[parent].children[i])
        &&& self.tombstones() == before.tombstones()
        &&& before.pending().is_prefix_of(self.pending())
        &&& forall|a: NodeId, x: NodeId|
            before@.contains_key(x) ==> self.ancestor(a, x) == before.ancestor(a, x)
    }

    /// A document grows under a node where nothing happens.
    pub proof fn lemma_grows_refl(&self, parent: NodeId)
        requires
            self.wf(),
        ensures
            self.grows_under(self, parent),
    {
    }

    /// Growing under a node, and then again, is growing under it.
    pub proof fn lemma_grows_trans(&self, middle: &Arena, before: &Arena, parent: NodeId)
        requires
            before@.contains_key(parent),
            middle.grows_under(before, parent),
            self.grows_under(middle, parent),
        ensures
            self.grows_under(before, parent),
    {
        assert(middle@.contains_key(parent));
        assert forall|x: NodeId| #[trigger] before@.contains_key(x) implies self@.contains_key(x)
            && self@[x].data == before@[x].data && self@[x].parent == before@[x].parent && (x
            != parent ==> self@[x].children == before@[x].children) by {
            assert(middle@.contains_key(x));
        }
        let (k0, k1, k2) = (
            before@[parent].children,
            middle@[parent].children,
            self@[parent].children,
        );
        assert(k0.is_prefix_of(k2)) by {
            assert(k0 =~= k1.subrange(0, k0.len() as int));
            assert(k1 =~= k2.subrange(0, k1.len() as int));
            assert(k0 =~= k2.subrange(0, k0.len() as int));
        }
        assert forall|i: int| k0.len() <= i < k2.len() implies !before@.contains_key(
            #[trigger] k2[i],
        ) by {
            if i < k1.len() {
                assert(k1[i] == k2[i]);
                assert(!before@.contains_key(k1[i]));
            } else {
                assert(!middle@.contains_key(k2[i]));
            }
        }
        let (earlier, between, latest) = (before.pending(), middle.pending(), self.pending());
        assert(earlier.is_prefix_of(latest)) by {
            assert(earlier =~= between.subrange(0, earlier.len() as int));
            assert(between =~= latest.subrange(0, between.len() as int));
            assert(earlier =~= latest.subrange(0, earlier.len() as int));
        }
        assert forall|a: NodeId, x: NodeId| before@.contains_key(x) implies self.ancestor(a, x)
            == before.ancestor(a, x) by {
            assert(middle@.contains_key(x));
        }
    }

    /// What grows under a node that was itself made since `before` leaves
    /// the nodes of `before` as they are.
    pub proof fn lemma_grows_inside(&self, middle: &Arena, before: &Arena, parent: NodeId, inner: NodeId)
        requires
            before@.contains_key(parent),
            middle.grows_under(before, parent),
            !before@.contains_key(inner),
            middle@.contains_key(inner),
            self.grows_under(middle, inner),
        ensures
            self.grows_under(before, parent),
    {
        assert(middle@.contains_key(parent));
        assert forall|x: NodeId| #[trigger] before@.contains_key(x) implies self@.contains_key(x)
            && self@[x].data == before@[x].data && self@[x].parent == before@[x].parent && (x
            != parent ==> self@[x].children == before@[x].children) by {
            assert(middle@.contains_key(x));
        }
        let (k0, k1, k2) = (
            before@[parent].children,
            middle@[parent].children,
            self@[parent].children,
        );
        assert(k1 == k2);
        let (earlier, between, latest) = (before.pending(), middle.pending(), self.pending());
        assert(earlier.is_prefix_of(latest)) by {
            assert(earlier =~= between.subrange(0, earlier.len() as int));
            assert(between =~= latest.subrange(0, between.len() as int));
            assert(earlier =~= latest.subrange(0, earlier.len() as int));
        }
        assert forall|a: NodeId, x: NodeId| before@.contains_key(x) implies self.ancestor(a, x)
            == before.ancestor(a, x) by {
            assert(middle@.contains_key(x));
        }
    }

    /// A new node that was written and then put at the end of the children
    /// of `parent` makes the document grow under `parent`.
    pub proof fn lemma_appended(&self, written: &Arena, before: &Arena, parent: NodeId, id: NodeId)
        requires
            before.wf(),
            before@.contains_key(parent),
            written.wf(),
            written.extends(before),
            written.detached(seq![id]),
            !before@.contains_key(id),
            self.adopts(written, parent, written@[parent].children.len() as int, seq![id]),
        ensures
            self.grows_under(before, parent),
            self@.contains_key(id),
            self@[id].data == written@[id].data,
            self@[id].children == written@[id].children,
            self@[id].parent == Some(parent),
            self@[parent].children == before@[parent].children.push(id),
    {
        let nodes = seq![id];
        assert(nodes[0] == id);
        assert(written@.contains_key(nodes[0]));
        written.lemma_new_nodes_adoptable(before, nodes, parent);
        let kids = written@[parent].children;
        assert(kids == before@[parent].children);
        assert(kids.subrange(0, kids.len() as int) + nodes + kids.subrange(
            kids.len() as int,
            kids.len() as int,
        ) =~= kids.push(id));
        assert(nodes.contains(id));
        assert forall|x: NodeId| #[trigger] before@.contains_key(x) implies self@.contains_key(x)
            && self@[x].data == before@[x].data && self@[x].parent == before@[x].parent && (x
            != parent ==> self@[x].children == before@[x].children) by {
            assert(written@.contains_key(x));
            if nodes.contains(x) {
                let k = choose|k: int| 0 <= k < nodes.len() && nodes[k] == x;
                assert(nodes[k] == id);
            }
        }
        assert(before@[parent].children =~= self@[parent].children.subrange(
            0,
            before@[parent].children.len() as int,
        ));
        let (earlier, between) = (before.pending(), written.pending());
        assert(earlier.is_prefix_of(self.pending()));
        assert forall|a: NodeId, x: NodeId| before@.contains_key(x) implies self.ancestor(a, x)
            == before.ancestor(a, x) by {
            assert(written@.contains_key(x));
        }
    }

    /// New detached nodes that were put at the end of the children of
    /// `parent` make the document grow under `parent`.
    pub proof fn lemma_mounted(&self, built: &Arena, before: &Arena, parent: NodeId, roots: Seq<NodeId>)
        requires
            before.wf(),
            before@.contains_key(parent),
            built.wf(),
            built.extends(before),
            built.detached(roots),
            forall|k: int| 0 <= k < roots.len() ==> !before@.contains_key(#[trigger] roots[k]),
            self.adopts(built, parent, built@[parent].children.len() as int, roots),
        ensures
            self.grows_under(before, parent),
            self@[parent].children == before@[parent].children + roots,
            forall|k: int|
                0 <= k < roots.len() ==> self@.contains_key(#[trigger] roots[k])
                    && self@[roots[k]].parent == Some(parent),
    {
        built.lemma_new_nodes_adoptable(before, roots, parent);
        let kids = built@[parent].children;
        assert(kids == before@[parent].children);
        assert(kids.subrange(0, kids.len() as int) + roots + kids.subrange(
            kids.len() as int,
            kids.len() as int,
        ) =~= kids + roots);
        assert forall|x: NodeId| #[trigger] before@.contains_key(x) implies self@.contains_key(x)
            && self@[x].data == before@[x].data && self@[x].parent == before@[x].parent && (x
            != parent ==> self@[x].children == before@[x].children) by {
            assert(built@.contains_key(x));
            if roots.contains(x) {
                let k = choose|k: int| 0 <= k < roots.len() && roots[k] == x;
                assert(!before@.contains_key(roots[k]));
            }
        }
        assert(before@[parent].children =~= self@[parent].children.subrange(
            0,
            before@[parent].children.len() as int,
        ));
        assert forall|i: int|
            before@[parent].children.len() <= i < self@[parent].children.len()
                implies !before@.contains_key(#[trigger] self@[parent].children[i]) by {
            assert(self@[parent].children[i] == roots[i - kids.len()]);
        }
        assert(before.pending().is_prefix_of(self.pending()));
        assert forall|a: NodeId, x: NodeId| before@.contains_key(x) implies self.ancestor(a, x)
            == before.ancestor(a, x) by {
            assert(built@.contains_key(x));
        }
        assert forall|k: int| 0 <= k < roots.len() implies self@.contains_key(#[trigger] roots[k])
            && self@[roots[k]].parent == Some(parent) by {
            assert(built@.contains_key(roots[k]));
            assert(roots.contains(roots[k]));
            if roots[k] == parent {
                assert(before@.contains_key(roots[k]));
            }
        }
    }

    /// Removing the first of the children that a node still has, after
    /// those before it, is removing the children up to and with that one.
    pub proof fn lemma_child_cleared(
        &self,
        middle: &Arena,
        before: &Arena,
        parent: NodeId,
        kids: Seq<NodeId>,
        done: int,
    )
        requires
            before.wf(),
            before@.contains_key(parent),
            kids == before@[parent].children,
            0 <= done < kids.len(),
            middle.without(before, kids.take(done)),
            middle@.contains_key(parent),
            middle@[parent].children == kids.skip(done),
            self.drops(middle, kids[done]),
        ensures
            self.without(before, kids.take(done + 1)),
            self@.contains_key(parent),
            self@[parent].children == kids.skip(done + 1),
    {
        let child = kids[done];
        let list = middle@[parent].children;
        assert(list[0] == child);
        assert(middle@.contains_key(list[0]));
        assert(middle@[child].parent == Some(parent));
        assert(list.index_of(child) == 0) by {
            let at = list.index_of(child);
            assert(list.contains(child));
            if at != 0 {
                assert(list[at] == list[0]);
            }
        }
        self.lemma_drops_without(middle, child);
        self.lemma_without_compose(middle, before, kids.take(done), seq![child]);
        assert(kids.take(done) + seq![child] =~= kids.take(done + 1));
        assert(kids.skip(done).remove(0) =~= kids.skip(done + 1));
        assert(!ancestor_in(middle@, middle.depth(), child, parent)) by {
            if ancestor_in(middle@, middle.depth(), child, parent) {
                lemma_ancestor_depth(middle@, middle.depth(), child, parent);
            }
        }
    }
}

} // verus!
