//! The persistent container: a handle on one snapshot, cheap to clone, and
//! changed only by copy-on-write.

use std::rc::Rc;
use vstd::prelude::*;
use crate::ident::{ID, Kind, Header};
use crate::tree::{Edit, Tree};
use crate::node::{Node, resolve, rebuilt, same_allocation};
use crate::violation::Violation;

verus! {

/// A handle on one snapshot of a tree, with the stamp that its next
/// mutation will use. Clones share the snapshot; a mutation through one
/// handle leaves every other handle on the snapshot it had.
///
/// Identifiers and version stamps are drawn from the clock of the
/// container that is mutated. They tell the nodes of one snapshot apart,
/// and a snapshot from those that mutations make of it. Clones that are
/// mutated apart from each other draw the same numbers: one header, and
/// one identifier, may then stand for different nodes in the two. Nothing
/// in the library relies on it being otherwise: a manager that is handed
/// another container compares nodes, not headers.
pub struct State<P> {
    root: Rc<Node<P>>,
    next: u64,
}

impl<P> View for State<P> {
    type V = Tree<P>;

    closed spec fn view(&self) -> Tree<P> {
        self.root@
    }
}

impl<P> State<P> {
    /// The stamp of the next mutation: greater than every identifier and
    /// every version stamp in the snapshot.
    pub closed spec fn clock(&self) -> u64 {
        self.next
    }

    /// What holds of every container: no identifier names two nodes, and
    /// the clock is ahead of all that the snapshot holds.
    #[verifier::type_invariant]
    pub open spec fn wf(&self) -> bool {
        self@.unique() && self@.below(self.clock())
    }

    /// Whether `node` is a node of the current snapshot: what its
    /// identifier resolves to.
    pub open spec fn holds(&self, node: Tree<P>) -> bool {
        self@.find(node.header.id) == Some(node)
    }

    /// The root that `construct` makes.
    pub open spec fn initial(kind: Kind, payload: P) -> Tree<P> {
        Tree {
            header: Header { id: ID { raw: 0 }, version: 0, kind },
            payload,
            children: Seq::empty(),
        }
    }

    /// A container on a fresh snapshot: a root of the given kind and
    /// payload, without children.
    pub fn construct(kind: Kind, payload: P) -> (s: Self)
        ensures
            s@ == Self::initial(kind, payload),
            s.clock() == 1,
            s.wf(),
    {
        let root = Node {
            header: Header { id: ID { raw: 0 }, version: 0, kind },
            payload: Rc::new(payload),
            children: Vec::new(),
        };
        assert(root@.children =~= Seq::empty());
        State { root: Rc::new(root), next: 1 }
    }

    /// The root of the current snapshot.
    pub fn root(&self) -> (r: &Node<P>)
        ensures
            r@ == self@,
    {
        &*self.root
    }

    /// A shared reference to the root of the current snapshot.
    pub fn root_ref(&self) -> (r: Rc<Node<P>>)
        ensures
            r@ == self@,
    {
        self.root.clone()
    }

    /// The header of the root of the current snapshot.
    pub fn header(&self) -> (h: Header)
        ensures
            h == self@.header,
    {
        proof {
            self.root.lemma_children();
        }
        self.root.header
    }

    /// The stamp that the next mutation will use.
    pub fn next_stamp(&self) -> (stamp: u64)
        ensures
            stamp == self.clock(),
    {
        self.next
    }

    /// Sets the clock forward to `to`, where it is behind it. The snapshot
    /// stays the same. A container that takes the place of another is set
    /// forward to the clock of that one, so that no stamp is used twice in
    /// one line of history.
    pub fn advance_clock(&mut self, to: u64)
        ensures
            final(self)@ == old(self)@,
            final(self).clock() == if old(self).clock() < to {
                to
            } else {
                old(self).clock()
            },
            final(self).wf(),
    {
        proof {
            use_type_invariant(&*self);
        }
        if self.next < to {
            proof {
                self@.lemma_below_raise(self.next, to);
            }
            self.next = to;
        }
    }

    /// The instance that `id` names in the current snapshot, if it names
    /// one.
    pub fn ref_from_id(&self, id: ID) -> (res: Option<Rc<Node<P>>>)
        ensures
            match res {
                Some(n) => self@.find(id) == Some(n@),
                None => self@.find(id) is None,
            },
    {
        proof {
            use_type_invariant(self);
        }
        resolve(&self.root, id)
    }

    /// Whether `node` is a node of the current snapshot, by its allocation.
    /// An answer of yes is always right. An answer of no is given of every
    /// node that is not in the snapshot, and of a node that is a copy of one
    /// in it.
    pub fn is_live(&self, node: &Rc<Node<P>>) -> (live: bool)
        ensures
            live ==> self.holds(node@),
    {
        proof {
            use_type_invariant(self);
            node.lemma_children();
        }
        match resolve(&self.root, node.header.id) {
            Some(found) => same_allocation(&found, node),
            None => false,
        }
    }

    /// Applies `edit` to the node named `id`, by copy-on-write: the target
    /// and its ancestors are replaced by new instances that carry the
    /// clock's stamp, every other node stays the instance it was, and the
    /// clock advances. Returns the new instance of the target.
    ///
    /// Rejected as `Stale`, with nothing changed, where `id` names no node
    /// of the current snapshot; as `Exhausted` where the clock has no stamp
    /// left.
    pub fn mutate_at(&mut self, id: ID, edit: Edit<P>) -> (res: Result<Rc<Node<P>>, Violation>)
        ensures
            res is Ok <==> old(self)@.contains(id) && old(self).clock() < u64::MAX,
            res matches Ok(n) ==> {
                &&& old(self)@.find(id) is Some
                &&& final(self)@ == old(self)@.rewrite(id, edit, old(self).clock())
                &&& final(self).clock() == old(self).clock() + 1
                &&& n@ == old(self)@.find(id).unwrap().edited(edit, old(self).clock())
                &&& final(self)@.find(id) == Some(n@)
            },
            res matches Err(e) ==> {
                &&& *final(self) == *old(self)
                &&& e == if old(self)@.contains(id) {
                    Violation::Exhausted
                } else {
                    Violation::Stale
                }
            },
            final(self).wf(),
    {
        proof {
            use_type_invariant(&*self);
            self@.lemma_find(id);
        }
        let stamp = self.next;
        if stamp == u64::MAX {
            return Err(
                if resolve(&self.root, id).is_some() {
                    Violation::Exhausted
                } else {
                    Violation::Stale
                },
            );
        }
        match rebuilt(&self.root, id, edit, stamp) {
            Ok((root, made)) => {
                proof {
                    let found = self@.find(id).unwrap();
                    self@.lemma_rewrite_well_formed(id, edit, stamp);
                    self@.lemma_below_raise(stamp, (stamp + 1) as u64);
                    self@.lemma_rewrite_keeps_chain(id, edit, stamp, id);
                    self@.lemma_rewrite_find(id, edit, stamp, id);
                    assert(found.rewrite(id, edit, stamp) == found.edited(edit, stamp));
                }
                self.next = stamp + 1;
                self.root = root;
                Ok(made)
            },
            Err(_) => Err(Violation::Stale),
        }
    }

    /// Applies `edit` to `node`, as `mutate_at` does to the node of its
    /// name, where `node` is a node of the current snapshot by its
    /// allocation.
    ///
    /// Rejected as `Stale`, with nothing changed, wherever `node` is not a
    /// node of the current snapshot: a node that was superseded, or one of
    /// another container, whatever its header. A copy of a node of the
    /// snapshot is rejected as well.
    pub fn mutate(&mut self, node: &Rc<Node<P>>, edit: Edit<P>) -> (res: Result<
        Rc<Node<P>>,
        Violation,
    >)
        ensures
            !old(self).holds(node@) ==> res == Err::<Rc<Node<P>>, Violation>(Violation::Stale),
            res matches Ok(n) ==> {
                &&& old(self).holds(node@)
                &&& old(self).clock() < u64::MAX
                &&& final(self)@ == old(self)@.rewrite(
                    node@.header.id,
                    edit,
                    old(self).clock(),
                )
                &&& final(self).clock() == old(self).clock() + 1
                &&& n@ == node@.edited(edit, old(self).clock())
                &&& final(self)@.find(node@.header.id) == Some(n@)
            },
            res matches Err(e) ==> {
                &&& *final(self) == *old(self)
                &&& e == Violation::Stale || (e == Violation::Exhausted && old(self).holds(node@)
                    && old(self).clock() == u64::MAX)
            },
            final(self).wf(),
    {
        proof {
            use_type_invariant(&*self);
            node.lemma_children();
            self@.lemma_find(node@.header.id);
        }
        if !self.is_live(node) {
            return Err(Violation::Stale);
        }
        self.mutate_at(node.header.id, edit)
    }

    /// Appends a child of the given kind and payload to `parent`, as
    /// `mutate` does with `Edit::Append`, and returns the new child. Its
    /// identifier is the stamp of the mutation.
    pub fn append_child(&mut self, parent: &Rc<Node<P>>, kind: Kind, payload: P) -> (res: Result<
        Rc<Node<P>>,
        Violation,
    >)
        ensures
            !old(self).holds(parent@) ==> res == Err::<Rc<Node<P>>, Violation>(Violation::Stale),
            res matches Ok(child) ==> {
                &&& old(self).holds(parent@)
                &&& old(self).clock() < u64::MAX
                &&& final(self)@ == old(self)@.rewrite(
                    parent@.header.id,
                    Edit::Append(kind, payload),
                    old(self).clock(),
                )
                &&& final(self).clock() == old(self).clock() + 1
                &&& child@ == Tree::fresh_leaf(old(self).clock(), kind, payload)
                &&& final(self)@.find(ID { raw: old(self).clock() }) == Some(child@)
            },
            res matches Err(e) ==> {
                &&& *final(self) == *old(self)
                &&& e == Violation::Stale || (e == Violation::Exhausted && old(self).holds(parent@)
                    && old(self).clock() == u64::MAX)
            },
            final(self).wf(),
    {
        proof {
            use_type_invariant(&*self);
        }
        let ghost stamp = self.next;
        match self.mutate(parent, Edit::Append(kind, payload)) {
            Ok(grown) => {
                proof {
                    old(self)@.lemma_find(parent@.header.id);
                    old(self)@.lemma_rewrite_appends(parent@.header.id, kind, payload, stamp);
                    grown.lemma_children();
                }
                let kids = grown.children();
                let last = kids.len() - 1;
                Ok(kids[last].clone())
            },
            Err(e) => Err(e),
        }
    }
}

impl<P> Clone for State<P> {
    /// A second handle on the same snapshot.
    fn clone(&self) -> (res: Self)
        ensures
            res == *self,
    {
        proof {
            use_type_invariant(self);
        }
        State { root: self.root.clone(), next: self.next }
    }
}

} // verus!
