//! The mathematical model of a snapshot: a finite tree of headers and
//! payloads, with the functions that the contracts of the library speak of.

use vstd::prelude::*;
use crate::ident::{ID, Kind, Header};

verus! {

/// What a mutation does to the node it targets.
#[derive(Clone, Debug)]
pub enum Edit<P> {
    /// Replace the payload.
    Replace(P),
    /// Append a new child of the given kind and payload, under an
    /// identifier that names nothing in the snapshot: the stamp of the
    /// mutation.
    Append(Kind, P),
    /// Remove the child with the given identifier, with all below it.
    Remove(ID),
}

/// A snapshot of a (sub)tree.
pub struct Tree<P> {
    pub header: Header,
    pub payload: P,
    pub children: Seq<Tree<P>>,
}

impl<P> Tree<P> {
    /// Whether a node named `id` occurs in this tree.
    pub open spec fn contains(self, id: ID) -> bool
        decreases self,
    {
        self.header.id == id || exists|i: int|
            0 <= i < self.children.len() && (#[trigger] self.children[i]).contains(id)
    }

    /// The node named `id`, if one occurs in this tree. In a tree without
    /// duplicates there is at most one.
    pub open spec fn find(self, id: ID) -> Option<Tree<P>>
        decreases self,
    {
        if self.header.id == id {
            Some(self)
        } else if exists|i: int|
            0 <= i < self.children.len() && (#[trigger] self.children[i]).contains(id) {
            let i: int = choose|i: int|
                0 <= i < self.children.len() && (#[trigger] self.children[i]).contains(id);
            self.children[i].find(id)
        } else {
            None
        }
    }

    /// No identifier names two nodes of this tree.
    pub open spec fn unique(self) -> bool
        decreases self,
    {
        &&& forall|i: int|
            0 <= i < self.children.len() ==> (#[trigger] self.children[i]).unique()
        &&& forall|i: int|
            0 <= i < self.children.len() ==> !(#[trigger] self.children[i]).contains(
                self.header.id,
            )
        &&& forall|i: int, j: int, id: ID|
            0 <= i < j < self.children.len() ==> !(#[trigger] self.children[i].contains(id)
                && #[trigger] self.children[j].contains(id))
    }

    /// Every identifier and every version stamp in this tree is less than
    /// `bound`.
    pub open spec fn below(self, bound: u64) -> bool
        decreases self,
    {
        &&& self.header.id.raw < bound
        &&& self.header.version < bound
        &&& forall|i: int|
            0 <= i < self.children.len() ==> (#[trigger] self.children[i]).below(bound)
    }

    /// Whether `id` names `target` or one of its ancestors: the nodes that a
    /// mutation of `target` reinstantiates.
    pub open spec fn on_chain(self, target: ID, id: ID) -> bool {
        match self.find(id) {
            Some(t) => t.contains(target),
            None => false,
        }
    }

    /// The child that `Edit::Append` adds under stamp `stamp`.
    pub open spec fn fresh_leaf(stamp: u64, kind: Kind, payload: P) -> Tree<P> {
        Tree {
            header: Header { id: ID { raw: stamp }, version: stamp, kind },
            payload,
            children: Seq::empty(),
        }
    }

    /// Whether one of the children is named `id`.
    pub open spec fn has_child(self, id: ID) -> bool {
        exists|k: int| 0 <= k < self.children.len() && (#[trigger] self.children[k]).header.id == id
    }

    /// The position of a child named `id`.
    pub open spec fn child_position(self, id: ID) -> int {
        choose|k: int| 0 <= k < self.children.len() && (#[trigger] self.children[k]).header.id == id
    }

    /// This node as the mutation with stamp `stamp` leaves it when it is the
    /// target: a new instance, changed as `edit` says.
    pub open spec fn edited(self, edit: Edit<P>, stamp: u64) -> Tree<P> {
        let header = self.header.restamped(stamp);
        match edit {
            Edit::Replace(p) => Tree { header, payload: p, children: self.children },
            Edit::Append(kind, p) => Tree {
                header,
                payload: self.payload,
                children: self.children.push(Self::fresh_leaf(stamp, kind, p)),
            },
            Edit::Remove(c) => Tree {
                header,
                payload: self.payload,
                children: if self.has_child(c) {
                    self.children.remove(self.child_position(c))
                } else {
                    self.children
                },
            },
        }
    }

    /// This tree after the mutation with stamp `stamp` applied `edit` to the
    /// node named `target`: the target and each of its ancestors is a new
    /// instance stamped `stamp`, every other subtree is the one it was.
    pub open spec fn rewrite(self, target: ID, edit: Edit<P>, stamp: u64) -> Tree<P>
        decreases self,
    {
        if self.header.id == target {
            self.edited(edit, stamp)
        } else if self.contains(target) {
            Tree {
                header: self.header.restamped(stamp),
                payload: self.payload,
                children: Seq::new(
                    self.children.len(),
                    |i: int|
                        if 0 <= i < self.children.len() {
                            self.children[i].rewrite(target, edit, stamp)
                        } else {
                            self
                        },
                ),
            }
        } else {
            self
        }
    }
}

impl<P> Tree<P> {
    /// `find` answers exactly for the identifiers that occur, with a node
    /// of that name.
    pub proof fn lemma_find(self, id: ID)
        ensures
            self.find(id) is Some <==> self.contains(id),
            self.find(id) matches Some(t) ==> t.header.id == id,
        decreases self,
    {
        if self.header.id == id {
        } else if exists|i: int|
            0 <= i < self.children.len() && (#[trigger] self.children[i]).contains(id) {
            let i: int = choose|i: int|
                0 <= i < self.children.len() && (#[trigger] self.children[i]).contains(id);
            self.children[i].lemma_find(id);
        }
    }

    /// What occurs in a node that was found occurs in the tree.
    pub proof fn lemma_found_within(self, id: ID, inner: ID)
        requires
            self.find(id) matches Some(t) && t.contains(inner),
        ensures
            self.contains(inner),
        decreases self,
    {
        if self.header.id == id {
        } else {
            let i: int = choose|i: int|
                0 <= i < self.children.len() && (#[trigger] self.children[i]).contains(id);
            self.children[i].lemma_found_within(id, inner);
        }
    }

    /// A bound on a tree bounds each node found in it.
    pub proof fn lemma_found_below(self, id: ID, bound: u64)
        requires
            self.below(bound),
        ensures
            self.find(id) matches Some(t) ==> t.below(bound),
            self.contains(id) ==> id.raw < bound,
        decreases self,
    {
        self.lemma_find(id);
        if self.header.id == id {
        } else if exists|i: int|
            0 <= i < self.children.len() && (#[trigger] self.children[i]).contains(id) {
            let i: int = choose|i: int|
                0 <= i < self.children.len() && (#[trigger] self.children[i]).contains(id);
            self.children[i].lemma_found_below(id, bound);
            self.children[i].lemma_find(id);
        }
    }

    /// A bound may be raised.
    pub proof fn lemma_below_raise(self, bound: u64, higher: u64)
        requires
            self.below(bound),
            bound <= higher,
        ensures
            self.below(higher),
        decreases self,
    {
        assert forall|i: int| 0 <= i < self.children.len() implies (#[trigger] self.children[
            i
        ]).below(higher) by {
            self.children[i].lemma_below_raise(bound, higher);
        }
    }

    /// In a tree without duplicates, what occurs under a child is found
    /// under that child and nowhere else.
    pub proof fn lemma_unique_child(self, i: int, id: ID)
        requires
            self.unique(),
            0 <= i < self.children.len(),
            self.children[i].contains(id),
        ensures
            id != self.header.id,
            self.find(id) == self.children[i].find(id),
            forall|j: int|
                0 <= j < self.children.len() && (#[trigger] self.children[j]).contains(id) ==> j
                    == i,
    {
        assert forall|j: int|
            0 <= j < self.children.len() && (#[trigger] self.children[j]).contains(
                id,
            ) implies j == i by {
            if j < i {
                assert(!(self.children[j].contains(id) && self.children[i].contains(id)));
            } else if i < j {
                assert(!(self.children[i].contains(id) && self.children[j].contains(id)));
            }
        }
    }
}

} // verus!
