//! The nodes of a snapshot as they are held in memory: shared, immutable
//! instances, each with the header that identifies it.

use std::rc::Rc;
use vstd::prelude::*;
use crate::ident::{ID, Kind, Header};
use crate::tree::{Edit, Tree};

verus! {

/// One instance of a node. An instance is never changed once it is part of
/// a snapshot: a mutation puts a new instance in its place.
#[derive(Debug)]
pub struct Node<P> {
    pub header: Header,
    pub payload: Rc<P>,
    pub children: Vec<Rc<Node<P>>>,
}

impl<P> Node<P> {
    /// The snapshot that this node is the root of.
    pub open spec fn tree(self) -> Tree<P>
        decreases self,
    {
        Tree {
            header: self.header,
            payload: *self.payload,
            children: Seq::new(
                self.children@.len(),
                |i: int|
                    if 0 <= i < self.children@.len() {
                        (*self.children@[i]).tree()
                    } else {
                        Tree { header: self.header, payload: *self.payload, children: Seq::empty() }
                    },
            ),
        }
    }

    /// The children of the snapshot are the snapshots of the children.
    pub proof fn lemma_children(&self)
        ensures
            self@.header == self.header,
            self@.children.len() == self.children@.len(),
            forall|i: int|
                0 <= i < self.children@.len() ==> (#[trigger] self.children@[i])@
                    == self@.children[i],
    {
    }

    /// The header that identifies this instance.
    pub fn header(&self) -> (h: &Header)
        ensures
            *h == self@.header,
    {
        &self.header
    }

    /// What the node carries.
    pub fn payload(&self) -> (p: &P)
        ensures
            *p == self@.payload,
    {
        &*self.payload
    }

    /// The children, in their order.
    pub fn children(&self) -> (kids: &Vec<Rc<Node<P>>>)
        ensures
            kids@.len() == self@.children.len(),
            forall|i: int| 0 <= i < kids@.len() ==> (#[trigger] kids@[i])@ == self@.children[i],
    {
        &self.children
    }
}

impl<P> View for Node<P> {
    type V = Tree<P>;

    open spec fn view(&self) -> Tree<P> {
        self.tree()
    }
}

/// The list once more, each node shared with the list it is taken from.
pub(crate) fn share_all<P>(kids: &Vec<Rc<Node<P>>>) -> (res: Vec<Rc<Node<P>>>)
    ensures
        res@ == kids@,
{
    let mut out: Vec<Rc<Node<P>>> = Vec::new();
    let mut i: usize = 0;
    while i < kids.len()
        invariant
            0 <= i <= kids@.len(),
            out@ == kids@.take(i as int),
        decreases kids@.len() - i,
    {
        out.push(kids[i].clone());
        i = i + 1;
        assert(out@ =~= kids@.take(i as int));
    }
    assert(kids@.take(kids@.len() as int) =~= kids@);
    out
}

/// The instance that `id` names in the tree under `node`, if there is one.
pub(crate) fn resolve<P>(node: &Rc<Node<P>>, id: ID) -> (res: Option<Rc<Node<P>>>)
    requires
        node@.unique(),
    ensures
        match res {
            Some(n) => node@.find(id) == Some(n@),
            None => node@.find(id) is None,
        },
    decreases node,
{
    proof {
        node.lemma_children();
    }
    if node.header.id == id {
        return Some(node.clone());
    }
    let mut i: usize = 0;
    while i < node.children.len()
        invariant
            0 <= i <= node.children@.len(),
            node@.unique(),
            node.header.id != id,
            node@.children.len() == node.children@.len(),
            forall|j: int|
                0 <= j < node.children@.len() ==> (#[trigger] node.children@[j])@
                    == node@.children[j],
            forall|j: int| 0 <= j < i ==> !(#[trigger] node@.children[j]).contains(id),
        decreases node.children@.len() - i,
    {
        let found = resolve(&node.children[i], id);
        proof {
            node@.children[i as int].lemma_find(id);
        }
        match found {
            Some(n) => {
                proof {
                    node@.lemma_unique_child(i as int, id);
                }
                return Some(n);
            },
            None => {},
        }
        i = i + 1;
    }
    proof {
        node@.lemma_find(id);
    }
    None
}

/// The position of the child named `id`.
pub(crate) fn child_index<P>(node: &Node<P>, id: ID) -> (res: Option<usize>)
    ensures
        match res {
            Some(k) => k < node.children@.len() && node@.children[k as int].header.id == id,
            None => !node@.has_child(id),
        },
{
    proof {
        node.lemma_children();
        assert forall|j: int| 0 <= j < node.children@.len() implies (#[trigger] node.children@[j]).header
            == node@.children[j].header by {
            node.children@[j].lemma_children();
        }
    }
    let mut i: usize = 0;
    while i < node.children.len()
        invariant
            0 <= i <= node.children@.len(),
            node@.children.len() == node.children@.len(),
            forall|j: int|
                0 <= j < node.children@.len() ==> (#[trigger] node.children@[j]).header
                    == node@.children[j].header,
            forall|j: int| 0 <= j < i ==> (#[trigger] node@.children[j]).header.id != id,
        decreases node.children@.len() - i,
    {
        if node.children[i].header.id == id {
            return Some(i);
        }
        i = i + 1;
    }
    None
}

/// The instance that takes the place of `node` when a mutation stamped
/// `stamp` applies `edit` to it.
pub(crate) fn edited<P>(node: &Node<P>, edit: Edit<P>, stamp: u64) -> (res: Node<P>)
    requires
        node@.unique(),
    ensures
        res@ == node@.edited(edit, stamp),
{
    proof {
        node.lemma_children();
    }
    let header = Header { id: node.header.id, version: stamp, kind: node.header.kind };
    let mut kids = share_all(&node.children);
    match edit {
        Edit::Replace(p) => {
            let res = Node { header, payload: Rc::new(p), children: kids };
            assert(res@.children =~= node@.children);
            res
        },
        Edit::Append(kind, p) => {
            let leaf = Node {
                header: Header { id: ID { raw: stamp }, version: stamp, kind },
                payload: Rc::new(p),
                children: Vec::new(),
            };
            assert(leaf@.children =~= Seq::empty());
            kids.push(Rc::new(leaf));
            let res = Node { header, payload: node.payload.clone(), children: kids };
            assert(res@.children =~= node@.children.push(Tree::fresh_leaf(stamp, kind, p)));
            res
        },
        Edit::Remove(c) => {
            match child_index(node, c) {
                Some(k) => {
                    kids.remove(k);
                    proof {
                        let at = node@.child_position(c);
                        assert(node@.children[k as int].contains(c));
                        assert(node@.children[at].contains(c));
                        node@.lemma_unique_child(k as int, c);
                        assert(at == k);
                        node@.children.remove_ensures(at);
                    }
                },
                None => {},
            }
            let res = Node { header, payload: node.payload.clone(), children: kids };
            assert(res@.children =~= node@.edited(edit, stamp).children);
            res
        },
    }
}

/// The tree that a mutation stamped `stamp` leaves in place of the tree
/// under `node`, with the new instance of the target; or the edit handed
/// back, where no node named `target` occurs in that tree. Only the target
/// and its ancestors are built anew; every other node is shared with the
/// old tree.
pub(crate) fn rebuilt<P>(node: &Rc<Node<P>>, target: ID, edit: Edit<P>, stamp: u64) -> (res: Result<
    (Rc<Node<P>>, Rc<Node<P>>),
    Edit<P>,
>)
    requires
        node@.unique(),
    ensures
        match res {
            Ok((root, made)) => {
                &&& node@.find(target) matches Some(t) && made@ == t.edited(edit, stamp)
                &&& root@ == node@.rewrite(target, edit, stamp)
            },
            Err(e) => !node@.contains(target) && e == edit,
        },
    decreases node,
{
    proof {
        node.lemma_children();
    }
    if node.header.id == target {
        let made = Rc::new(edited(node, edit, stamp));
        return Ok((made.clone(), made));
    }
    let mut rest = edit;
    let mut i: usize = 0;
    while i < node.children.len()
        invariant
            0 <= i <= node.children@.len(),
            node@.unique(),
            node.header.id != target,
            node@.children.len() == node.children@.len(),
            forall|j: int|
                0 <= j < node.children@.len() ==> (#[trigger] node.children@[j])@
                    == node@.children[j],
            rest == edit,
            forall|j: int| 0 <= j < i ==> !(#[trigger] node@.children[j]).contains(target),
        decreases node.children@.len() - i,
    {
        match rebuilt(&node.children[i], target, rest, stamp) {
            Ok((child, made)) => {
                let mut kids = share_all(&node.children);
                kids.set(i, child);
                let res = Node {
                    header: Header {
                        id: node.header.id,
                        version: stamp,
                        kind: node.header.kind,
                    },
                    payload: node.payload.clone(),
                    children: kids,
                };
                proof {
                    let old = node@;
                    let new = old.rewrite(target, edit, stamp);
                    old.children[i as int].lemma_find(target);
                    old.lemma_unique_child(i as int, target);
                    assert forall|j: int| 0 <= j < old.children.len() implies res@.children[j]
                        == #[trigger] new.children[j] by {
                        if j != i {
                            old.children[j].lemma_rewrite_header(target, edit, stamp);
                        }
                    }
                    assert(res@.children =~= new.children);
                }
                return Ok((Rc::new(res), made));
            },
            Err(e) => {
                rest = e;
            },
        }
        i = i + 1;
    }
    Err(rest)
}

/// Whether both are one allocation. Calls `Rc::ptr_eq` of std. What is
/// taken on trust: that two references to one allocation refer to one
/// node, so that an answer of yes is never given of two different nodes.
/// Of an answer of no, nothing is claimed.
#[verifier::external_body]
pub(crate) fn same_allocation<P>(a: &Rc<Node<P>>, b: &Rc<Node<P>>) -> (same: bool)
    ensures
        same ==> a@ == b@,
{
    Rc::ptr_eq(a, b)
}

} // verus!
