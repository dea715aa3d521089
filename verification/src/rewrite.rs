//! What a mutation does to a snapshot: which identifiers stay, that the
//! result is again a well-formed snapshot, and what each identifier
//! resolves to afterwards.

use vstd::prelude::*;
use crate::ident::{ID, Kind};
use crate::tree::{Edit, Tree};

verus! {

impl<P> Tree<P> {
    /// The position among the old children of the child that stands at `i`
    /// after `edit` (where it is not a newly appended one).
    pub open spec fn origin(self, edit: Edit<P>, i: int) -> int {
        match edit {
            Edit::Remove(c) => if self.has_child(c) && i >= self.child_position(c) {
                i + 1
            } else {
                i
            },
            _ => i,
        }
    }

    /// The children of an edited node are the old children, in their old
    /// order, but for the one removed or the one appended.
    pub proof fn lemma_edited_children(self, edit: Edit<P>, stamp: u64)
        ensures
            self.edited(edit, stamp).header == self.header.restamped(stamp),
            forall|i: int|
                0 <= i < self.edited(edit, stamp).children.len() ==> {
                    ||| 0 <= self.origin(edit, i) < self.children.len() && (
                    #[trigger] self.edited(edit, stamp).children[i]) == self.children[self.origin(
                        edit,
                        i,
                    )]
                    ||| edit matches Edit::Append(kind, p) && i == self.children.len()
                        && self.edited(edit, stamp).children[i] == Self::fresh_leaf(stamp, kind, p)
                },
            forall|i: int, j: int|
                0 <= i < j < self.edited(edit, stamp).children.len() ==> #[trigger] self.origin(
                    edit,
                    i,
                ) < #[trigger] self.origin(edit, j),
    {
        match edit {
            Edit::Remove(c) => {
                if self.has_child(c) {
                    self.children.remove_ensures(self.child_position(c));
                }
            },
            _ => {},
        }
    }

    /// A mutation invents no identifier but the one of its stamp.
    pub proof fn lemma_rewrite_ids(self, target: ID, edit: Edit<P>, stamp: u64, id: ID)
        ensures
            self.rewrite(target, edit, stamp).header.id == self.header.id,
            self.rewrite(target, edit, stamp).contains(id) ==> self.contains(id) || id == (ID {
                raw: stamp,
            }),
        decreases self,
    {
        let new = self.rewrite(target, edit, stamp);
        if new.contains(id) && new.header.id != id {
            let i: int = choose|i: int|
                0 <= i < new.children.len() && (#[trigger] new.children[i]).contains(id);
            if self.header.id == target {
                self.lemma_edited_children(edit, stamp);
                if 0 <= self.origin(edit, i) < self.children.len() && new.children[i]
                    == self.children[self.origin(edit, i)] {
                    assert(self.children[self.origin(edit, i)].contains(id));
                }
            } else if self.contains(target) {
                self.children[i].lemma_rewrite_ids(target, edit, stamp, id);
            }
        }
    }

    /// A mutation under a stamp that bounds the snapshot leaves a snapshot
    /// without duplicates, bounded by the next stamp.
    pub proof fn lemma_rewrite_well_formed(self, target: ID, edit: Edit<P>, stamp: u64)
        requires
            self.unique(),
            self.below(stamp),
            stamp < u64::MAX,
        ensures
            self.rewrite(target, edit, stamp).unique(),
            self.rewrite(target, edit, stamp).below((stamp + 1) as u64),
        decreases self,
    {
        let new = self.rewrite(target, edit, stamp);
        let next = (stamp + 1) as u64;
        let fresh = ID { raw: stamp };
        self.lemma_below_raise(stamp, next);
        self.lemma_found_below(fresh, stamp);
        if self.header.id == target {
            self.lemma_edited_children(edit, stamp);
            assert forall|i: int| 0 <= i < new.children.len() implies (#[trigger] new.children[i]).unique()
                && new.children[i].below(next) && !new.children[i].contains(self.header.id) by {
                if 0 <= self.origin(edit, i) < self.children.len() && new.children[i]
                    == self.children[self.origin(edit, i)] {
                    let o = self.origin(edit, i);
                    assert(self.children[o].unique());
                    self.children[o].lemma_below_raise(stamp, next);
                }
            }
            assert forall|i: int, j: int, id: ID| 0 <= i < j < new.children.len() implies !(
            #[trigger] new.children[i].contains(id) && #[trigger] new.children[j].contains(
                id,
            )) by {
                let oi = self.origin(edit, i);
                let oj = self.origin(edit, j);
                assert(oi < oj);
                if new.children[i].contains(id) && new.children[j].contains(id) {
                    assert(new.children[i] == self.children[oi]);
                    if 0 <= oj < self.children.len() && new.children[j] == self.children[oj] {
                        assert(!(self.children[oi].contains(id) && self.children[oj].contains(id)));
                    } else {
                        assert(id == fresh);
                        self.children[oi].lemma_found_below(fresh, stamp);
                    }
                }
            }
        } else if self.contains(target) {
            assert forall|i: int| 0 <= i < new.children.len() implies (#[trigger] new.children[i]).unique()
                && new.children[i].below(next) && !new.children[i].contains(self.header.id) by {
                self.children[i].lemma_rewrite_well_formed(target, edit, stamp);
                self.children[i].lemma_rewrite_ids(target, edit, stamp, self.header.id);
            }
            assert forall|i: int, j: int, id: ID| 0 <= i < j < new.children.len() implies !(
            #[trigger] new.children[i].contains(id) && #[trigger] new.children[j].contains(
                id,
            )) by {
                if new.children[i].contains(id) && new.children[j].contains(id) {
                    self.children[i].lemma_rewrite_ids(target, edit, stamp, id);
                    self.children[j].lemma_rewrite_ids(target, edit, stamp, id);
                    self.children[i].lemma_found_below(fresh, stamp);
                    self.children[j].lemma_found_below(fresh, stamp);
                    if id == fresh {
                        assert(self.children[i].contains(target));
                        assert(self.children[j].contains(target));
                        assert(!(self.children[i].contains(target) && self.children[j].contains(
                            target,
                        )));
                    } else {
                        assert(!(self.children[i].contains(id) && self.children[j].contains(id)));
                    }
                }
            }
        }
    }
}

impl<P> Tree<P> {
    /// Whether `edit`, applied to `target`, takes the node named `id` out
    /// of this tree: it removes a child of the target under which `id`
    /// occurs.
    pub open spec fn removes(self, target: ID, edit: Edit<P>, id: ID) -> bool {
        match (edit, self.find(target)) {
            (Edit::Remove(c), Some(t)) => t.holds_under(c, id),
            _ => false,
        }
    }

    /// Whether `id` occurs under a child named `child`.
    pub open spec fn holds_under(self, child: ID, id: ID) -> bool {
        exists|k: int|
            0 <= k < self.children.len() && (#[trigger] self.children[k]).header.id == child
                && self.children[k].contains(id)
    }

    /// A mutation restamps the root of every tree in which its target
    /// occurs, and leaves every other tree as it is.
    pub proof fn lemma_rewrite_header(self, target: ID, edit: Edit<P>, stamp: u64)
        ensures
            self.contains(target) ==> self.rewrite(target, edit, stamp).header
                == self.header.restamped(stamp),
            !self.contains(target) ==> self.rewrite(target, edit, stamp) == self,
    {
        self.lemma_edited_children(edit, stamp);
    }

    /// What still occurs after a mutation resolves to what it resolved to
    /// before, rewritten in its turn.
    pub proof fn lemma_rewrite_find(self, target: ID, edit: Edit<P>, stamp: u64, id: ID)
        requires
            self.unique(),
            self.below(stamp),
            self.contains(id),
            self.rewrite(target, edit, stamp).contains(id),
        ensures
            self.find(id) is Some,
            self.rewrite(target, edit, stamp).find(id) == Some(
                self.find(id).unwrap().rewrite(target, edit, stamp),
            ),
        decreases self,
    {
        let new = self.rewrite(target, edit, stamp);
        self.lemma_rewrite_ids(target, edit, stamp, id);
        self.lemma_find(id);
        self.lemma_found_below(id, stamp);
        if self.header.id != id {
            let a: int = choose|i: int|
                0 <= i < self.children.len() && (#[trigger] self.children[i]).contains(id);
            self.lemma_unique_child(a, id);
            self.children[a].lemma_find(id);
            let t = self.find(id).unwrap();
            let b: int = choose|i: int|
                0 <= i < new.children.len() && (#[trigger] new.children[i]).contains(id);
            assert(new.find(id) == new.children[b].find(id));
            if self.header.id == target {
                self.lemma_edited_children(edit, stamp);
                let o = self.origin(edit, b);
                assert(new.children[b] == self.children[o]);
                assert(o == a);
                if t.contains(target) {
                    self.children[a].lemma_found_within(id, target);
                }
            } else if self.contains(target) {
                self.children[b].lemma_rewrite_ids(target, edit, stamp, id);
                assert(b == a);
                self.children[a].lemma_rewrite_find(target, edit, stamp, id);
            } else {
                if t.contains(target) {
                    self.lemma_found_within(id, target);
                }
            }
        }
    }

    /// The target of a mutation and its ancestors still occur afterwards.
    pub proof fn lemma_rewrite_keeps_chain(self, target: ID, edit: Edit<P>, stamp: u64, id: ID)
        requires
            self.unique(),
            self.on_chain(target, id),
        ensures
            self.rewrite(target, edit, stamp).contains(id),
        decreases self,
    {
        let new = self.rewrite(target, edit, stamp);
        self.lemma_rewrite_ids(target, edit, stamp, id);
        self.lemma_find(id);
        if self.header.id != id {
            let a: int = choose|i: int|
                0 <= i < self.children.len() && (#[trigger] self.children[i]).contains(id);
            self.lemma_unique_child(a, id);
            self.children[a].lemma_found_within(id, target);
            self.lemma_unique_child(a, target);
            self.children[a].lemma_rewrite_keeps_chain(target, edit, stamp, id);
            assert(new.children[a].contains(id));
        }
    }

    /// A mutation takes out of the tree only what its edit removes.
    pub proof fn lemma_rewrite_keeps(self, target: ID, edit: Edit<P>, stamp: u64, id: ID)
        requires
            self.unique(),
            self.contains(id),
            !self.removes(target, edit, id),
        ensures
            self.rewrite(target, edit, stamp).contains(id),
        decreases self,
    {
        let new = self.rewrite(target, edit, stamp);
        self.lemma_rewrite_ids(target, edit, stamp, id);
        if self.header.id != id {
            let a: int = choose|i: int|
                0 <= i < self.children.len() && (#[trigger] self.children[i]).contains(id);
            self.lemma_unique_child(a, id);
            if self.header.id == target {
                match edit {
                    Edit::Remove(c) => {
                        if self.has_child(c) {
                            let k = self.child_position(c);
                            self.children.remove_ensures(k);
                            if k == a {
                                assert(self.find(target) == Some(self));
                                assert(self.children[k].header.id == c && self.children[k].contains(
                                    id,
                                ));
                                assert(self.holds_under(c, id));
                            }
                            assert(k != a);
                            if a < k {
                                assert(new.children[a] == self.children[a]);
                            } else {
                                assert(new.children[a - 1] == self.children[a]);
                            }
                        } else {
                            assert(new.children[a].contains(id));
                        }
                    },
                    _ => {
                        assert(new.children[a] == self.children[a]);
                    },
                }
            } else if self.contains(target) {
                self.children[a].lemma_find(target);
                if self.children[a].contains(target) {
                    self.lemma_unique_child(a, target);
                }
                self.children[a].lemma_rewrite_keeps(target, edit, stamp, id);
                assert(new.children[a].contains(id));
            }
        }
    }

    /// What occurs under a removed child no longer occurs after the
    /// mutation.
    pub proof fn lemma_rewrite_removes(self, target: ID, edit: Edit<P>, stamp: u64, id: ID)
        requires
            self.unique(),
            self.below(stamp),
            self.removes(target, edit, id),
        ensures
            self.contains(id),
            !self.rewrite(target, edit, stamp).contains(id),
        decreases self,
    {
        let new = self.rewrite(target, edit, stamp);
        let c = edit->Remove_0;
        let t = self.find(target).unwrap();
        assert(t.holds_under(c, id));
        let k: int = choose|k: int|
            0 <= k < t.children.len() && (#[trigger] t.children[k]).header.id == c
                && t.children[k].contains(id);
        assert(t.contains(id));
        self.lemma_found_within(target, id);
        self.lemma_find(target);
        self.lemma_found_below(id, stamp);
        if self.header.id == target {
            self.lemma_unique_child(k, id);
            let k0 = self.child_position(c);
            assert(self.children[k0].contains(c));
            assert(self.children[k].contains(c));
            self.lemma_unique_child(k, c);
            assert(k0 == k);
            self.lemma_edited_children(edit, stamp);
            if new.contains(id) {
                let b: int = choose|i: int|
                    0 <= i < new.children.len() && (#[trigger] new.children[i]).contains(id);
                let o = self.origin(edit, b);
                assert(new.children[b] == self.children[o]);
                assert(o != k);
            }
        } else {
            let a: int = choose|i: int|
                0 <= i < self.children.len() && (#[trigger] self.children[i]).contains(target);
            self.lemma_unique_child(a, target);
            self.children[a].lemma_found_within(target, id);
            self.lemma_unique_child(a, id);
            self.children[a].lemma_rewrite_removes(target, edit, stamp, id);
            if new.contains(id) {
                let b: int = choose|i: int|
                    0 <= i < new.children.len() && (#[trigger] new.children[i]).contains(id);
                self.children[b].lemma_rewrite_ids(target, edit, stamp, id);
                assert(b != a);
            }
        }
    }

    /// After an append the stamp, taken as an identifier, resolves to the
    /// new child.
    pub proof fn lemma_rewrite_appends(self, target: ID, kind: Kind, payload: P, stamp: u64)
        requires
            self.unique(),
            self.below(stamp),
            stamp < u64::MAX,
            self.contains(target),
        ensures
            !self.contains(ID { raw: stamp }),
            self.rewrite(target, Edit::Append(kind, payload), stamp).find(ID { raw: stamp })
                == Some(Self::fresh_leaf(stamp, kind, payload)),
        decreases self,
    {
        let edit = Edit::Append(kind, payload);
        let fresh = ID { raw: stamp };
        let leaf = Self::fresh_leaf(stamp, kind, payload);
        let new = self.rewrite(target, edit, stamp);
        self.lemma_found_below(fresh, stamp);
        self.lemma_rewrite_well_formed(target, edit, stamp);
        self.lemma_rewrite_ids(target, edit, stamp, fresh);
        if self.header.id == target {
            let n = self.children.len() as int;
            assert(new.children[n] == leaf);
            assert(leaf.contains(fresh));
            new.lemma_unique_child(n, fresh);
        } else {
            let a: int = choose|i: int|
                0 <= i < self.children.len() && (#[trigger] self.children[i]).contains(target);
            self.children[a].lemma_rewrite_appends(target, kind, payload, stamp);
            new.children[a].lemma_find(fresh);
            new.lemma_unique_child(a, fresh);
        }
    }
}

impl<P> Tree<P> {
    /// Only an append brings the stamp in as an identifier.
    pub proof fn lemma_rewrite_origin_of_fresh(self, target: ID, edit: Edit<P>, stamp: u64)
        requires
            self.below(stamp),
            self.rewrite(target, edit, stamp).contains(ID { raw: stamp }),
        ensures
            edit is Append,
        decreases self,
    {
        let fresh = ID { raw: stamp };
        let new = self.rewrite(target, edit, stamp);
        self.lemma_found_below(fresh, stamp);
        self.lemma_rewrite_ids(target, edit, stamp, fresh);
        let b: int = choose|i: int|
            0 <= i < new.children.len() && (#[trigger] new.children[i]).contains(fresh);
        if self.header.id == target {
            self.lemma_edited_children(edit, stamp);
            if 0 <= self.origin(edit, b) < self.children.len() && new.children[b]
                == self.children[self.origin(edit, b)] {
                self.children[self.origin(edit, b)].lemma_found_below(fresh, stamp);
            }
        } else if self.contains(target) {
            self.children[b].lemma_rewrite_origin_of_fresh(target, edit, stamp);
        }
    }
}

} // verus!
