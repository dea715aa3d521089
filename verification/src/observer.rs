//! The registry of observers and the pass that compares what each of them
//! last saw with what its identifier now resolves to.
//!
//! An observer holds the very instance it was last told of. Whether that
//! instance is the current one is a question about nodes, not about
//! headers: containers that were mutated apart from each other may give one
//! header to different nodes. Two passes answer it. After a mutation of the
//! live container the headers decide, and the pass is exact. After another
//! container took the place of the live one, nothing is known of where it
//! comes from, and the pass asks whether both are one allocation: an
//! answer of yes is always right, and an answer of no costs at most an
//! update that tells the observer what it knew.

use std::rc::Rc;
use vstd::prelude::*;
use crate::ident::{ID, Entity};
use crate::tree::{Edit, Tree};
use crate::node::{Node, same_allocation};
use crate::event::{Notice, Delivery, DynUpdateEvent, delivered};
use crate::state::State;

verus! {

/// One subscription: the actor to notify, the node it tracks, and the
/// instance of that node which it was last told of.
#[derive(Debug)]
pub struct Observer<P> {
    pub entity: Entity,
    pub id: ID,
    pub seen: Rc<Node<P>>,
}

/// A subscription as the contracts speak of it: the snapshot in place of
/// the shared node.
pub struct Entry<P> {
    pub entity: Entity,
    pub id: ID,
    pub seen: Tree<P>,
}

impl<P> View for Observer<P> {
    type V = Entry<P>;

    open spec fn view(&self) -> Entry<P> {
        Entry { entity: self.entity, id: self.id, seen: self.seen@ }
    }
}

/// The subscriptions of a list, in its order.
pub open spec fn entries<P>(list: Seq<Observer<P>>) -> Seq<Entry<P>> {
    Seq::new(list.len(), |i: int| list[i]@)
}

/// Whether the node that the observer was last told of is the one that
/// its identifier resolves to in `tree`.
pub open spec fn tracks<P>(tree: Tree<P>, e: Entry<P>) -> bool {
    tree.find(e.id) == Some(e.seen)
}

/// Whether every observer was told of the node that `tree` holds.
pub open spec fn in_sync<P>(tree: Tree<P>, observers: Seq<Entry<P>>) -> bool {
    forall|i: int| 0 <= i < observers.len() ==> tracks(tree, #[trigger] observers[i])
}

/// Whether no actor has two entries on one identifier.
pub open spec fn distinct<P>(observers: Seq<Entry<P>>) -> bool {
    forall|i: int, j: int|
        0 <= i < j < observers.len() ==> !((#[trigger] observers[i]).entity == (
        #[trigger] observers[j]).entity && observers[i].id == observers[j].id)
}

/// What a pass tells an observer whose identifier resolves to `found`,
/// where `same` is the answer to whether it has seen that node: a removal
/// where the identifier does not resolve, nothing where the answer is yes,
/// and else the node.
pub open spec fn told_of<P>(e: Entry<P>, found: Option<Tree<P>>, same: bool, animate: bool) -> Option<
    (Entity, Notice<P>),
> {
    match found {
        Some(t) => if same {
            None
        } else {
            Some((e.entity, Notice::Update(t, animate)))
        },
        None => Some((e.entity, Notice::Remove(e.id, animate))),
    }
}

/// The observer after a pass in which its identifier resolved to `found`:
/// told of that node, or gone where there is none.
pub open spec fn renewed<P>(e: Entry<P>, found: Option<Tree<P>>) -> Option<Entry<P>> {
    match found {
        Some(t) => Some(Entry { entity: e.entity, id: e.id, seen: t }),
        None => None,
    }
}

/// What a pass over `tree` tells the observer: nothing where its
/// identifier resolves to the node it has seen, the current node where it
/// resolves to another, and a removal where it no longer resolves.
pub open spec fn notice_for<P>(tree: Tree<P>, e: Entry<P>, animate: bool) -> Option<
    (Entity, Notice<P>),
> {
    told_of(e, tree.find(e.id), tracks(tree, e), animate)
}

/// The observer after a pass over `tree`.
pub open spec fn refreshed<P>(tree: Tree<P>, e: Entry<P>) -> Option<Entry<P>> {
    renewed(e, tree.find(e.id))
}

/// The notifications of an exact pass over `tree`, in the order of the
/// observers.
pub open spec fn notices<P>(tree: Tree<P>, observers: Seq<Entry<P>>, animate: bool) -> Seq<
    (Entity, Notice<P>),
> {
    observers.filter_map(|e: Entry<P>| notice_for(tree, e, animate))
}

/// The observers that a pass over `tree` leaves, in their order.
pub open spec fn kept<P>(tree: Tree<P>, observers: Seq<Entry<P>>) -> Seq<Entry<P>> {
    observers.filter_map(|e: Entry<P>| refreshed(tree, e))
}

/// Whether `judged` holds the observers, in their order, each with an
/// answer to whether it has seen the current node.
pub open spec fn judges<P>(judged: Seq<(Entry<P>, bool)>, observers: Seq<Entry<P>>) -> bool {
    &&& judged.len() == observers.len()
    &&& forall|i: int| 0 <= i < judged.len() ==> (#[trigger] judged[i]).0 == observers[i]
}

/// Whether no answer is a wrong yes: each observer that is said to have
/// seen the current node has seen it.
pub open spec fn sound<P>(tree: Tree<P>, judged: Seq<(Entry<P>, bool)>) -> bool {
    forall|i: int| 0 <= i < judged.len() && (#[trigger] judged[i]).1 ==> tracks(tree, judged[i].0)
}

/// What a pass over `tree` tells an observer when it goes by the answer
/// that comes with it.
pub open spec fn told<P>(tree: Tree<P>, j: (Entry<P>, bool), animate: bool) -> Option<
    (Entity, Notice<P>),
> {
    told_of(j.0, tree.find(j.0.id), j.1, animate)
}

/// The notifications of a pass over `tree` that goes by the answers given,
/// in the order of the observers.
pub open spec fn notices_given<P>(tree: Tree<P>, judged: Seq<(Entry<P>, bool)>, animate: bool) -> Seq<
    (Entity, Notice<P>),
> {
    judged.filter_map(|j: (Entry<P>, bool)| told(tree, j, animate))
}

/// The observers, each with the right answer.
pub open spec fn judged_exactly<P>(tree: Tree<P>, observers: Seq<Entry<P>>) -> Seq<
    (Entry<P>, bool),
> {
    Seq::new(observers.len(), |i: int| (observers[i], tracks(tree, observers[i])))
}

/// The answer that the headers give: whether the identifier resolves to a
/// node with the header of the one that the observer has seen.
pub open spec fn by_header<P>(tree: Tree<P>, e: Entry<P>) -> bool {
    tree.find(e.id) matches Some(t) && t.header == e.seen.header
}

/// Whether the notification at `k` goes to the actor of `e` and is about
/// the identifier that `e` tracks.
pub open spec fn addressed<P>(out: Seq<(Entity, Notice<P>)>, k: int, e: Entry<P>) -> bool {
    0 <= k < out.len() && out[k].0 == e.entity && out[k].1.subject() == e.id
}

/// The observers but those of `entity` on `id`.
pub open spec fn without_pair<P>(observers: Seq<Entry<P>>, entity: Entity, id: ID) -> Seq<
    Entry<P>,
> {
    observers.filter(|e: Entry<P>| !(e.entity == entity && e.id == id))
}

/// The observers but those of `entity`.
pub open spec fn without_entity<P>(observers: Seq<Entry<P>>, entity: Entity) -> Seq<Entry<P>> {
    observers.filter(|e: Entry<P>| e.entity != entity)
}

/// What an actor is told when it registers on `id`: the current node, or
/// that there is none.
pub open spec fn greeting<P>(tree: Tree<P>, entity: Entity, id: ID) -> (Entity, Notice<P>) {
    match tree.find(id) {
        Some(t) => (entity, Notice::Update(t, false)),
        None => (entity, Notice::Remove(id, false)),
    }
}

/// The observers after `entity` registered on `id`: any entry for the
/// pair is gone, and where `id` resolves there is a new one at the end,
/// told of the current node.
pub open spec fn with_observer<P>(
    tree: Tree<P>,
    observers: Seq<Entry<P>>,
    entity: Entity,
    id: ID,
) -> Seq<Entry<P>> {
    match tree.find(id) {
        Some(t) => without_pair(observers, entity, id).push(Entry { entity, id, seen: t }),
        None => without_pair(observers, entity, id),
    }
}

/// With the right answers, a pass that goes by the answers is the exact
/// pass.
pub proof fn lemma_exact<P>(tree: Tree<P>, observers: Seq<Entry<P>>, animate: bool)
    ensures
        judges(judged_exactly(tree, observers), observers),
        sound(tree, judged_exactly(tree, observers)),
        notices_given(tree, judged_exactly(tree, observers), animate) == notices(
            tree,
            observers,
            animate,
        ),
    decreases observers.len(),
{
    if observers.len() > 0 {
        lemma_exact(tree, observers.drop_last(), animate);
        assert(judged_exactly(tree, observers).drop_last() =~= judged_exactly(
            tree,
            observers.drop_last(),
        ));
    }
}

/// One more observer, one more step of the pass.
pub proof fn lemma_kept_step<P>(tree: Tree<P>, observers: Seq<Entry<P>>, i: int)
    requires
        0 <= i < observers.len(),
    ensures
        kept(tree, observers.take(i + 1)) == kept(tree, observers.take(i)) + (match refreshed(
            tree,
            observers[i],
        ) {
            Some(e) => seq![e],
            None => Seq::empty(),
        }),
{
    observers.lemma_filter_map_take_succ(|e: Entry<P>| refreshed(tree, e), i);
}

/// One more answer, one more step of the pass.
pub proof fn lemma_given_step<P>(
    tree: Tree<P>,
    judged: Seq<(Entry<P>, bool)>,
    next: (Entry<P>, bool),
    animate: bool,
)
    ensures
        notices_given(tree, judged.push(next), animate) == notices_given(tree, judged, animate) + (
        match told(tree, next, animate) {
            Some(n) => seq![n],
            None => Seq::empty(),
        }),
{
    assert(judged.push(next).drop_last() =~= judged);
}

/// After a pass every observer that is left was told of the node that the
/// tree holds.
pub proof fn lemma_kept_in_sync<P>(tree: Tree<P>, observers: Seq<Entry<P>>)
    ensures
        in_sync(tree, kept(tree, observers)),
    decreases observers.len(),
{
    if observers.len() > 0 {
        lemma_kept_in_sync(tree, observers.drop_last());
    }
}

/// Dropping observers leaves the others as they were.
pub proof fn lemma_filter_in_sync<P>(
    tree: Tree<P>,
    observers: Seq<Entry<P>>,
    pred: spec_fn(Entry<P>) -> bool,
)
    requires
        in_sync(tree, observers),
    ensures
        in_sync(tree, observers.filter(pred)),
    decreases observers.len(),
{
    reveal(Seq::filter);
    if observers.len() > 0 {
        assert forall|i: int| 0 <= i < observers.drop_last().len() implies tracks(
            tree,
            #[trigger] observers.drop_last()[i],
        ) by {
            assert(observers.drop_last()[i] == observers[i]);
        }
        lemma_filter_in_sync(tree, observers.drop_last(), pred);
    }
}

/// Dropping observers gives no actor a second entry on an identifier.
pub proof fn lemma_filter_distinct<P>(observers: Seq<Entry<P>>, pred: spec_fn(Entry<P>) -> bool)
    requires
        distinct(observers),
    ensures
        distinct(observers.filter(pred)),
    decreases observers.len(),
{
    reveal(Seq::filter);
    if observers.len() > 0 {
        let rest = observers.drop_last();
        let last = observers.last();
        assert forall|i: int, j: int| 0 <= i < j < rest.len() implies !((#[trigger] rest[i]).entity
            == (#[trigger] rest[j]).entity && rest[i].id == rest[j].id) by {
            assert(rest[i] == observers[i] && rest[j] == observers[j]);
        }
        lemma_filter_distinct(rest, pred);
        let some = rest.filter(pred);
        let all = observers.filter(pred);
        if pred(last) {
            assert forall|i: int, j: int| 0 <= i < j < all.len() implies !((#[trigger] all[i]).entity
                == (#[trigger] all[j]).entity && all[i].id == all[j].id) by {
                if j < some.len() {
                    assert(all[i] == some[i] && all[j] == some[j]);
                } else {
                    assert(all[i] == some[i]);
                    assert(some.contains(some[i]));
                    rest.lemma_filter_contains_rev(pred, some[i]);
                    let k = choose|k: int| 0 <= k < rest.len() && rest[k] == some[i];
                    assert(observers[k] == some[i]);
                    assert(observers[observers.len() - 1] == all[j]);
                }
            }
        }
    }
}

/// A pass gives no actor a second entry on an identifier.
pub proof fn lemma_kept_distinct<P>(tree: Tree<P>, observers: Seq<Entry<P>>)
    requires
        distinct(observers),
    ensures
        distinct(kept(tree, observers)),
    decreases observers.len(),
{
    if observers.len() > 0 {
        let rest = observers.drop_last();
        let last = observers.last();
        assert forall|i: int, j: int| 0 <= i < j < rest.len() implies !((#[trigger] rest[i]).entity
            == (#[trigger] rest[j]).entity && rest[i].id == rest[j].id) by {
            assert(rest[i] == observers[i] && rest[j] == observers[j]);
        }
        lemma_kept_distinct(tree, rest);
        let some = kept(tree, rest);
        let all = kept(tree, observers);
        assert forall|i: int, j: int| 0 <= i < j < all.len() implies !((#[trigger] all[i]).entity
            == (#[trigger] all[j]).entity && all[i].id == all[j].id) by {
            if j < some.len() {
                assert(all[i] == some[i] && all[j] == some[j]);
            } else {
                assert(all[i] == some[i]);
                assert(some.contains(some[i]));
                rest.lemma_filter_map_contains(|e: Entry<P>| refreshed(tree, e), some[i]);
                let t = choose|t: Entry<P>| #[trigger]
                    rest.contains(t) && refreshed(tree, t) == Some(some[i]);
                let k = choose|k: int| 0 <= k < rest.len() && rest[k] == t;
                assert(observers[k] == t);
                assert(observers[observers.len() - 1] == last);
            }
        }
    }
}

/// A registration leaves every observer told of the node that the tree
/// holds, and gives no actor a second entry on an identifier.
pub proof fn lemma_registered<P>(tree: Tree<P>, observers: Seq<Entry<P>>, entity: Entity, id: ID)
    requires
        in_sync(tree, observers),
        distinct(observers),
    ensures
        in_sync(tree, with_observer(tree, observers, entity, id)),
        distinct(with_observer(tree, observers, entity, id)),
{
    let pred = |e: Entry<P>| !(e.entity == entity && e.id == id);
    lemma_filter_in_sync(tree, observers, pred);
    lemma_filter_distinct(observers, pred);
    let left = observers.filter(pred);
    assert forall|i: int| 0 <= i < left.len() implies pred(#[trigger] left[i]) by {
        observers.lemma_filter_pred(pred, i);
    }
}

/// After a mutation the headers decide. Where an observer was told of the
/// node that the snapshot held, its identifier resolves, in the snapshot
/// that a mutation made of it, to a node with the same header exactly
/// where it resolves to the same node.
pub proof fn lemma_headers_decide<P>(
    tree: Tree<P>,
    stamp: u64,
    target: ID,
    edit: Edit<P>,
    e: Entry<P>,
)
    requires
        tree.unique(),
        tree.below(stamp),
        tracks(tree, e),
    ensures
        by_header(tree.rewrite(target, edit, stamp), e) <==> tracks(
            tree.rewrite(target, edit, stamp),
            e,
        ),
{
    let new = tree.rewrite(target, edit, stamp);
    if new.find(e.id) is Some {
        tree.lemma_find(e.id);
        new.lemma_find(e.id);
        tree.lemma_rewrite_find(target, edit, stamp, e.id);
        e.seen.lemma_rewrite_header(target, edit, stamp);
        tree.lemma_found_below(e.id, stamp);
    }
}

/// Settles one observer in a pass: `found` is what its identifier
/// resolves to, and `same` the answer to whether that is the node it has
/// seen. Returns the observer as the pass leaves it, told of what was
/// found, and what to tell its actor.
pub fn settle<P>(o: &Observer<P>, found: Option<Rc<Node<P>>>, same: bool, animate: bool) -> (res: (
    Option<Observer<P>>,
    Option<Delivery<P>>,
))
    ensures
        match res.0 {
            Some(left) => renewed(o@, view_of(found)) == Some(left@),
            None => renewed(o@, view_of(found)) is None,
        },
        match res.1 {
            Some(d) => told_of(o@, view_of(found), same, animate) == Some(d@),
            None => told_of(o@, view_of(found), same, animate) is None,
        },
{
    match found {
        Some(node) => {
            let notice = if same {
                None
            } else {
                Some(Delivery { target: o.entity, event: DynUpdateEvent::Update(node.clone(), animate) })
            };
            (Some(Observer { entity: o.entity, id: o.id, seen: node }), notice)
        },
        None => (
            None,
            Some(Delivery { target: o.entity, event: DynUpdateEvent::Remove(o.id, animate) }),
        ),
    }
}

/// The snapshot of what was found.
pub open spec fn view_of<P>(found: Option<Rc<Node<P>>>) -> Option<Tree<P>> {
    match found {
        Some(node) => Some(node@),
        None => None,
    }
}

/// One pass over all observers. Each is asked whether it has seen the node
/// that its identifier resolves to: by the headers where `headers` is set,
/// else by the allocation. Returns the observers that are left, the
/// notifications, and the answers that were given.
pub(crate) fn pass<P>(
    state: &State<P>,
    observers: &Vec<Observer<P>>,
    headers: bool,
    animate: bool,
) -> (res: (Vec<Observer<P>>, Vec<Delivery<P>>, Ghost<Seq<(Entry<P>, bool)>>))
    ensures
        entries(res.0@) == kept(state@, entries(observers@)),
        judges(res.2@, entries(observers@)),
        delivered(res.1@) == notices_given(state@, res.2@, animate),
        headers ==> forall|i: int|
            0 <= i < res.2@.len() ==> (#[trigger] res.2@[i]).1 == by_header(state@, res.2@[i].0),
        !headers ==> sound(state@, res.2@),
{
    let mut left: Vec<Observer<P>> = Vec::new();
    let mut out: Vec<Delivery<P>> = Vec::new();
    let ghost mut judged: Seq<(Entry<P>, bool)> = Seq::empty();
    let ghost all = entries(observers@);
    let mut i: usize = 0;
    while i < observers.len()
        invariant
            0 <= i <= observers@.len(),
            all == entries(observers@),
            entries(left@) == kept(state@, all.take(i as int)),
            judged.len() == i,
            forall|k: int| 0 <= k < i ==> (#[trigger] judged[k]).0 == all[k],
            delivered(out@) == notices_given(state@, judged, animate),
            headers ==> forall|k: int|
                0 <= k < i ==> (#[trigger] judged[k]).1 == by_header(state@, judged[k].0),
            !headers ==> sound(state@, judged),
        decreases observers@.len() - i,
    {
        let o = &observers[i];
        let found = state.ref_from_id(o.id);
        let same = match &found {
            Some(node) => {
                proof {
                    node.lemma_children();
                    o.seen.lemma_children();
                }
                if headers {
                    node.header().same_as(o.seen.header())
                } else {
                    same_allocation(&o.seen, node)
                }
            },
            None => false,
        };
        let ghost before = delivered(out@);
        let ghost stayed = entries(left@);
        proof {
            lemma_kept_step(state@, all, i as int);
            lemma_given_step(state@, judged, (o@, same), animate);
            judged = judged.push((o@, same));
        }
        let (renewed, notice) = settle(o, found, same, animate);
        match renewed {
            Some(r) => {
                left.push(r);
                assert(entries(left@) =~= stayed.push(r@));
            },
            None => {},
        }
        match notice {
            Some(n) => {
                out.push(n);
                assert(delivered(out@) =~= before.push(n@));
            },
            None => {},
        }
        assert(entries(left@) =~= kept(state@, all.take(i + 1)));
        assert(delivered(out@) =~= notices_given(state@, judged, animate));
        i = i + 1;
    }
    assert(all.take(observers@.len() as int) =~= all);
    (left, out, Ghost(judged))
}

/// The pass over all observers of a container of which nothing is known.
/// Each observer whose identifier no longer resolves is sent a removal and
/// dropped. Each other observer is left, told of the node that its
/// identifier resolves to; it is sent that node wherever it is another than
/// the one it has seen, and may be sent it where it is the same node in
/// another allocation. Returns the observers that are left and the
/// notifications to deliver, in the order of the observers.
pub fn check_all_observers<P>(state: &State<P>, observers: &Vec<Observer<P>>, animate: bool) -> (res:
    (Vec<Observer<P>>, Vec<Delivery<P>>))
    ensures
        entries(res.0@) == kept(state@, entries(observers@)),
        exists|judged: Seq<(Entry<P>, bool)>|
            #[trigger] judges(judged, entries(observers@)) && sound(state@, judged) && delivered(
                res.1@,
            ) == notices_given(state@, judged, animate),
{
    let (left, out, Ghost(judged)) = pass(state, observers, false, animate);
    assert(judges(judged, entries(observers@)));
    (left, out)
}

/// The observers but those of `entity` on `id`.
pub fn remove_observer<P>(observers: &Vec<Observer<P>>, entity: Entity, id: ID) -> (left: Vec<
    Observer<P>,
>)
    ensures
        entries(left@) == without_pair(entries(observers@), entity, id),
{
    let ghost pred = |e: Entry<P>| !(e.entity == entity && e.id == id);
    let ghost all = entries(observers@);
    let mut left: Vec<Observer<P>> = Vec::new();
    let mut i: usize = 0;
    assert(all.take(0).filter(pred) =~= Seq::empty()) by {
        reveal(Seq::filter);
    }
    assert(entries(left@) =~= Seq::empty());
    while i < observers.len()
        invariant
            0 <= i <= observers@.len(),
            all == entries(observers@),
            pred == |e: Entry<P>| !(e.entity == entity && e.id == id),
            entries(left@) == all.take(i as int).filter(pred),
        decreases observers@.len() - i,
    {
        let o = &observers[i];
        let ghost stayed = entries(left@);
        proof {
            reveal(Seq::filter);
            assert(all.take(i + 1).drop_last() =~= all.take(i as int));
        }
        if !(o.entity == entity && o.id == id) {
            let again = Observer { entity: o.entity, id: o.id, seen: o.seen.clone() };
            left.push(again);
            assert(entries(left@) =~= stayed.push(o@));
        }
        i = i + 1;
    }
    assert(all.take(observers@.len() as int) =~= all);
    left
}

/// The observers but those of `entity`.
pub fn remove_entity<P>(observers: &Vec<Observer<P>>, entity: Entity) -> (left: Vec<Observer<P>>)
    ensures
        entries(left@) == without_entity(entries(observers@), entity),
{
    let ghost pred = |e: Entry<P>| e.entity != entity;
    let ghost all = entries(observers@);
    let mut left: Vec<Observer<P>> = Vec::new();
    let mut i: usize = 0;
    assert(all.take(0).filter(pred) =~= Seq::empty()) by {
        reveal(Seq::filter);
    }
    assert(entries(left@) =~= Seq::empty());
    while i < observers.len()
        invariant
            0 <= i <= observers@.len(),
            all == entries(observers@),
            pred == |e: Entry<P>| e.entity != entity,
            entries(left@) == all.take(i as int).filter(pred),
        decreases observers@.len() - i,
    {
        let o = &observers[i];
        let ghost stayed = entries(left@);
        proof {
            reveal(Seq::filter);
            assert(all.take(i + 1).drop_last() =~= all.take(i as int));
        }
        if o.entity != entity {
            let again = Observer { entity: o.entity, id: o.id, seen: o.seen.clone() };
            left.push(again);
            assert(entries(left@) =~= stayed.push(o@));
        }
        i = i + 1;
    }
    assert(all.take(observers@.len() as int) =~= all);
    left
}

/// Registers `entity` on `id`. Any entry for the pair is dropped. Where
/// `id` resolves, the observers get one entry for the pair, told of the
/// current node, and the actor is sent that node; where it does not, the
/// actor is sent a removal.
pub fn add_observer<P>(state: &State<P>, observers: &Vec<Observer<P>>, entity: Entity, id: ID) -> (res:
    (Vec<Observer<P>>, Delivery<P>))
    ensures
        entries(res.0@) == with_observer(state@, entries(observers@), entity, id),
        res.1@ == greeting(state@, entity, id),
{
    let mut left = remove_observer(observers, entity, id);
    match state.ref_from_id(id) {
        Some(node) => {
            let ghost stayed = entries(left@);
            left.push(Observer { entity, id, seen: node.clone() });
            assert(entries(left@) =~= stayed.push(Entry { entity, id, seen: node@ }));
            (left, Delivery { target: entity, event: DynUpdateEvent::Update(node, false) })
        },
        None => (left, Delivery { target: entity, event: DynUpdateEvent::Remove(id, false) }),
    }
}

} // verus!
