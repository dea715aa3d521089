//! What holds of every mutation, every registration and every pass over
//! the observers.

use vstd::prelude::*;
use crate::ident::{ID, Entity};
use crate::tree::{Edit, Tree};
use crate::event::{ConfigureObserver, Event, Message, Notice};
use crate::violation::Violation;
use crate::manager::Registry;
use crate::observer::{
    Entry,
    tracks,
    distinct,
    addressed,
    judges,
    sound,
    told,
    judged_exactly,
    notice_for,
    refreshed,
    notices,
    notices_given,
    kept,
    lemma_exact,
    lemma_registered,
};

verus! {

/// Locality. A mutation sends nothing to an observer that tracks a node
/// which is neither the target nor one of its ancestors, and which the
/// mutation did not remove: the observer stays as it is, for its node is
/// the node it was.
pub proof fn law_locality<P>(
    tree: Tree<P>,
    stamp: u64,
    target: ID,
    edit: Edit<P>,
    e: Entry<P>,
    animate: bool,
)
    requires
        tree.unique(),
        tree.below(stamp),
        tracks(tree, e),
        !tree.on_chain(target, e.id),
        !tree.removes(target, edit, e.id),
    ensures
        tree.rewrite(target, edit, stamp).find(e.id) == tree.find(e.id),
        notice_for(tree.rewrite(target, edit, stamp), e, animate) is None,
        refreshed(tree.rewrite(target, edit, stamp), e) == Some(e),
{
    tree.lemma_find(e.id);
    tree.lemma_rewrite_keeps(target, edit, stamp, e.id);
    tree.lemma_rewrite_find(target, edit, stamp, e.id);
    e.seen.lemma_rewrite_header(target, edit, stamp);
}

/// Propagation. A mutation sends exactly one update to an observer that
/// tracks the target or one of its ancestors: it carries the node as the
/// mutation left it, which is a new instance of the same logical node,
/// stamped by the mutation.
pub proof fn law_propagation<P>(
    tree: Tree<P>,
    stamp: u64,
    target: ID,
    edit: Edit<P>,
    e: Entry<P>,
    animate: bool,
)
    requires
        tree.unique(),
        tree.below(stamp),
        tracks(tree, e),
        tree.on_chain(target, e.id),
    ensures
        tree.rewrite(target, edit, stamp).find(e.id) == Some(e.seen.rewrite(target, edit, stamp)),
        e.seen.rewrite(target, edit, stamp).header == e.seen.header.restamped(stamp),
        e.seen.rewrite(target, edit, stamp) != e.seen,
        notice_for(tree.rewrite(target, edit, stamp), e, animate) == Some(
            (e.entity, Notice::Update(e.seen.rewrite(target, edit, stamp), animate)),
        ),
        refreshed(tree.rewrite(target, edit, stamp), e) == Some(
            Entry { entity: e.entity, id: e.id, seen: e.seen.rewrite(target, edit, stamp) },
        ),
{
    tree.lemma_find(e.id);
    tree.lemma_rewrite_keeps_chain(target, edit, stamp, e.id);
    tree.lemma_rewrite_find(target, edit, stamp, e.id);
    e.seen.lemma_rewrite_header(target, edit, stamp);
    tree.lemma_found_below(e.id, stamp);
}

/// Removal. A mutation sends a removal to an observer that tracks a node
/// which it removed, and drops the observer.
pub proof fn law_removal<P>(
    tree: Tree<P>,
    stamp: u64,
    target: ID,
    edit: Edit<P>,
    e: Entry<P>,
    animate: bool,
)
    requires
        tree.unique(),
        tree.below(stamp),
        tree.removes(target, edit, e.id),
    ensures
        notice_for(tree.rewrite(target, edit, stamp), e, animate) == Some(
            (e.entity, Notice::<P>::Remove(e.id, animate)),
        ),
        refreshed(tree.rewrite(target, edit, stamp), e) is None,
{
    tree.lemma_rewrite_removes(target, edit, stamp, e.id);
    tree.rewrite(target, edit, stamp).lemma_find(e.id);
}

/// Identity. Between a snapshot and the one that a mutation makes of it, a
/// node has kept its header exactly where it is neither the target nor one
/// of its ancestors, and a node that has kept its header is the very
/// subtree it was. So along one line of mutations, to compare headers is
/// to compare subtrees.
pub proof fn law_identity<P>(tree: Tree<P>, stamp: u64, target: ID, edit: Edit<P>, id: ID)
    requires
        tree.unique(),
        tree.below(stamp),
        tree.find(id) is Some,
        tree.rewrite(target, edit, stamp).find(id) is Some,
    ensures
        tree.rewrite(target, edit, stamp).find(id).unwrap().header == tree.find(id).unwrap().header
            <==> !tree.on_chain(target, id),
        !tree.on_chain(target, id) ==> tree.rewrite(target, edit, stamp).find(id) == tree.find(id),
{
    let new = tree.rewrite(target, edit, stamp);
    tree.lemma_find(id);
    new.lemma_find(id);
    tree.lemma_rewrite_find(target, edit, stamp, id);
    tree.find(id).unwrap().lemma_rewrite_header(target, edit, stamp);
    tree.lemma_found_below(id, stamp);
}

/// Freshness. A mutation never gives an identifier of the snapshot to
/// another node: what an identifier of the old snapshot names afterwards
/// is a version of the node it named, and the one identifier that an append
/// brings in named nothing before.
pub proof fn law_fresh_identifier<P>(tree: Tree<P>, stamp: u64, target: ID, edit: Edit<P>, id: ID)
    requires
        tree.unique(),
        tree.below(stamp),
        tree.rewrite(target, edit, stamp).contains(id),
    ensures
        tree.contains(id) || (edit is Append && id == (ID { raw: stamp })),
        tree.contains(id) ==> tree.find(id) is Some && tree.rewrite(target, edit, stamp).find(id)
            == Some(tree.find(id).unwrap().rewrite(target, edit, stamp)),
        !tree.contains(ID { raw: stamp }),
{
    tree.lemma_rewrite_ids(target, edit, stamp, id);
    tree.lemma_found_below(ID { raw: stamp }, stamp);
    if tree.contains(id) {
        tree.lemma_rewrite_find(target, edit, stamp, id);
    } else {
        tree.lemma_rewrite_origin_of_fresh(target, edit, stamp);
    }
}

/// Version isolation. The snapshot that a mutation was applied to is left
/// as it was: its root identifier still resolves to its root, while the
/// root of the new snapshot is another instance of the same logical node.
pub proof fn law_version_isolation<P>(tree: Tree<P>, stamp: u64, target: ID, edit: Edit<P>)
    requires
        tree.unique(),
        tree.below(stamp),
        tree.contains(target),
    ensures
        tree.find(tree.header.id) == Some(tree),
        tree.rewrite(target, edit, stamp).header.id == tree.header.id,
        tree.rewrite(target, edit, stamp).header != tree.header,
{
    tree.lemma_rewrite_header(target, edit, stamp);
}

/// What an observer is sent goes to its actor and is about its
/// identifier.
pub proof fn law_notice_address<P>(tree: Tree<P>, j: (Entry<P>, bool), animate: bool)
    ensures
        told(tree, j, animate) matches Some(n) ==> n.0 == j.0.entity && n.1.subject() == j.0.id,
{
    tree.lemma_find(j.0.id);
}

/// The pass. Whatever the answers that a pass goes by, every observer is
/// sent at most one notification, and the notifications of the pass are
/// those of its observers and no others.
pub proof fn law_pass<P>(tree: Tree<P>, judged: Seq<(Entry<P>, bool)>, animate: bool)
    ensures
        notices_given(tree, judged, animate).len() <= judged.len(),
        forall|i: int|
            0 <= i < judged.len() && told(tree, #[trigger] judged[i], animate) is Some
                ==> notices_given(tree, judged, animate).contains(
                told(tree, judged[i], animate).unwrap(),
            ),
        forall|n: (Entity, Notice<P>)|
            #![trigger notices_given(tree, judged, animate).contains(n)]
            notices_given(tree, judged, animate).contains(n) ==> exists|i: int|
                0 <= i < judged.len() && told(tree, #[trigger] judged[i], animate) == Some(n),
    decreases judged.len(),
{
    let all = notices_given(tree, judged, animate);
    if judged.len() > 0 {
        let rest = judged.drop_last();
        let last = judged.last();
        law_pass(tree, rest, animate);
        let before = notices_given(tree, rest, animate);
        assert(all == before + (match told(tree, last, animate) {
            Some(n) => seq![n],
            None => Seq::empty(),
        }));
        assert forall|i: int|
            0 <= i < judged.len() && told(
                tree,
                #[trigger] judged[i],
                animate,
            ) is Some implies all.contains(told(tree, judged[i], animate).unwrap()) by {
            let n = told(tree, judged[i], animate).unwrap();
            if i < rest.len() {
                assert(rest[i] == judged[i]);
                assert(before.contains(n));
                let k = choose|k: int| 0 <= k < before.len() && before[k] == n;
                assert(all[k] == n);
            } else {
                assert(all[all.len() - 1] == n);
            }
        }
        assert forall|n: (Entity, Notice<P>)| all.contains(n) implies exists|i: int|
            0 <= i < judged.len() && told(tree, #[trigger] judged[i], animate) == Some(n) by {
            let k = choose|k: int| 0 <= k < all.len() && all[k] == n;
            if k < before.len() {
                assert(before[k] == n);
                assert(before.contains(n));
                let i = choose|i: int|
                    0 <= i < rest.len() && told(tree, #[trigger] rest[i], animate) == Some(n);
                assert(rest[i] == judged[i]);
            } else {
                assert(judged[judged.len() - 1] == last);
            }
        }
    }
}

/// Once. Where no actor has two entries on one identifier, no pass sends
/// two notifications to one actor about one identifier, and what a pass
/// sends to an actor about an identifier is what the observer of that
/// actor on that identifier is sent.
pub proof fn law_pass_once<P>(
    tree: Tree<P>,
    observers: Seq<Entry<P>>,
    judged: Seq<(Entry<P>, bool)>,
    animate: bool,
)
    requires
        judges(judged, observers),
        distinct(observers),
    ensures
        forall|a: int, b: int|
            #![trigger notices_given(tree, judged, animate)[a], notices_given(tree, judged, animate)[b]]
            0 <= a < b < notices_given(tree, judged, animate).len() ==> !(notices_given(
                tree,
                judged,
                animate,
            )[a].0 == notices_given(tree, judged, animate)[b].0 && notices_given(
                tree,
                judged,
                animate,
            )[a].1.subject() == notices_given(tree, judged, animate)[b].1.subject()),
        forall|i: int, k: int|
            #![trigger judged[i], notices_given(tree, judged, animate)[k]]
            0 <= i < judged.len() && addressed(notices_given(tree, judged, animate), k, judged[i].0)
                ==> told(tree, judged[i], animate) == Some(notices_given(tree, judged, animate)[k]),
    decreases judged.len(),
{
    let all = notices_given(tree, judged, animate);
    if judged.len() > 0 {
        let rest = judged.drop_last();
        let last = judged.last();
        let fewer = observers.drop_last();
        assert forall|i: int, j: int| 0 <= i < j < fewer.len() implies !((#[trigger] fewer[i]).entity
            == (#[trigger] fewer[j]).entity && fewer[i].id == fewer[j].id) by {
            assert(fewer[i] == observers[i] && fewer[j] == observers[j]);
        }
        assert forall|i: int| 0 <= i < rest.len() implies (#[trigger] rest[i]).0 == fewer[i] by {
            assert(rest[i] == judged[i]);
        }
        law_pass_once(tree, fewer, rest, animate);
        law_pass(tree, rest, animate);
        law_notice_address(tree, last, animate);
        let before = notices_given(tree, rest, animate);
        // where each notification of the pass comes from
        assert forall|k: int| #![trigger all[k]] 0 <= k < all.len() implies exists|j: int|
            0 <= j < judged.len() && (k < before.len() <==> j < rest.len()) && told(
                tree,
                #[trigger] judged[j],
                animate,
            ) == Some(all[k]) by {
            if k < before.len() {
                assert(all[k] == before[k]);
                assert(before.contains(before[k]));
                let j = choose|j: int|
                    0 <= j < rest.len() && told(tree, #[trigger] rest[j], animate) == Some(
                        before[k],
                    );
                assert(rest[j] == judged[j]);
            } else {
                assert(judged[judged.len() - 1] == last);
            }
        }
        assert forall|i: int, k: int|
            0 <= i < judged.len() && addressed(all, k, (#[trigger] judged[i]).0) implies told(
            tree,
            judged[i],
            animate,
        ) == Some(#[trigger] all[k]) by {
            let j = choose|j: int|
                0 <= j < judged.len() && (k < before.len() <==> j < rest.len()) && told(
                    tree,
                    #[trigger] judged[j],
                    animate,
                ) == Some(all[k]);
            law_notice_address(tree, judged[j], animate);
            if i < j {
                assert(!(observers[i].entity == observers[j].entity && observers[i].id
                    == observers[j].id));
            } else if j < i {
                assert(!(observers[j].entity == observers[i].entity && observers[j].id
                    == observers[i].id));
            }
        }
        assert forall|a: int, b: int| 0 <= a < b < all.len() implies !((#[trigger] all[a]).0 == (
        #[trigger] all[b]).0 && all[a].1.subject() == all[b].1.subject()) by {
            if b < before.len() {
                assert(all[a] == before[a] && all[b] == before[b]);
            } else {
                let j = choose|j: int|
                    0 <= j < judged.len() && (a < before.len() <==> j < rest.len()) && told(
                        tree,
                        #[trigger] judged[j],
                        animate,
                    ) == Some(all[a]);
                law_notice_address(tree, judged[j], animate);
                assert(judged[judged.len() - 1] == last);
                assert(!(observers[j].entity == observers[observers.len() - 1].entity
                    && observers[j].id == observers[observers.len() - 1].id));
            }
        }
    }
}

/// Each observer in a pass. Whatever the answers that a pass goes by, an
/// observer is sent at most one notification: the removal where its
/// identifier no longer resolves, the node that it resolves to where the
/// answer was no, and nothing where the answer was yes.
pub proof fn law_pass_each<P>(
    tree: Tree<P>,
    observers: Seq<Entry<P>>,
    judged: Seq<(Entry<P>, bool)>,
    animate: bool,
    i: int,
)
    requires
        judges(judged, observers),
        distinct(observers),
        0 <= i < observers.len(),
    ensures
        ({
            let e = observers[i];
            let out = notices_given(tree, judged, animate);
            &&& forall|k: int, l: int|
                #[trigger] addressed(out, k, e) && #[trigger] addressed(out, l, e) ==> k == l
            &&& forall|k: int| #[trigger]
                addressed(out, k, e) ==> told(tree, judged[i], animate) == Some(out[k])
            &&& told(tree, judged[i], animate) is Some ==> exists|k: int|
                #[trigger] addressed(out, k, e) && out[k] == told(tree, judged[i], animate).unwrap()
        }),
{
    let e = observers[i];
    let out = notices_given(tree, judged, animate);
    law_pass(tree, judged, animate);
    law_pass_once(tree, observers, judged, animate);
    law_notice_address(tree, judged[i], animate);
    assert(judged[i].0 == e);
    assert forall|k: int, l: int| #[trigger]
        addressed(out, k, e) && #[trigger] addressed(out, l, e) implies k == l by {
        if k < l {
            assert(!(out[k].0 == out[l].0 && out[k].1.subject() == out[l].1.subject()));
        } else if l < k {
            assert(!(out[l].0 == out[k].0 && out[l].1.subject() == out[k].1.subject()));
        }
    }
    assert forall|k: int| #[trigger] addressed(out, k, e) implies told(tree, judged[i], animate)
        == Some(out[k]) by {
        assert(addressed(out, k, judged[i].0));
    }
    if told(tree, judged[i], animate) is Some {
        let n = told(tree, judged[i], animate).unwrap();
        assert(out.contains(n));
        let k = choose|k: int| 0 <= k < out.len() && out[k] == n;
        assert(addressed(out, k, e));
    }
}

/// After a pass, every observer that is left was told of the node that
/// the snapshot holds, and an observer is left exactly where its
/// identifier resolves.
pub proof fn law_pass_leaves<P>(tree: Tree<P>, observers: Seq<Entry<P>>)
    ensures
        kept(tree, observers).len() <= observers.len(),
        forall|k: int|
            0 <= k < kept(tree, observers).len() ==> tracks(
                tree,
                #[trigger] kept(tree, observers)[k],
            ),
        forall|i: int|
            0 <= i < observers.len() && tree.find((#[trigger] observers[i]).id) is Some ==> kept(
                tree,
                observers,
            ).contains(refreshed(tree, observers[i]).unwrap()),
    decreases observers.len(),
{
    let all = kept(tree, observers);
    if observers.len() > 0 {
        let rest = observers.drop_last();
        law_pass_leaves(tree, rest);
        let before = kept(tree, rest);
        assert forall|i: int|
            0 <= i < observers.len() && tree.find(
                (#[trigger] observers[i]).id,
            ) is Some implies all.contains(refreshed(tree, observers[i]).unwrap()) by {
            let n = refreshed(tree, observers[i]).unwrap();
            if i < rest.len() {
                assert(rest[i] == observers[i]);
                assert(before.contains(n));
                let k = choose|k: int| 0 <= k < before.len() && before[k] == n;
                assert(all[k] == n);
            } else {
                assert(all[all.len() - 1] == n);
            }
        }
    }
}

/// The pass after a mutation. When a manager has applied a mutation, an
/// observer of the target or of one of its ancestors is sent exactly one
/// notification, the update with the node as the mutation left it; an
/// observer of a node that the mutation removed is sent exactly one, the
/// removal; and every other observer is sent nothing.
pub proof fn law_mutation_pass<P>(registry: Registry<P>, event: Event<P>, i: int)
    requires
        registry.wf(),
        registry.violation(event) is None,
        event.message is Mutation,
        0 <= i < registry.observers.len(),
    ensures
        ({
            let m = event.message->Mutation_0;
            let e = registry.observers[i];
            let out = registry.emits(event);
            let after = registry.after(event).tree;
            &&& forall|k: int, l: int|
                #[trigger] addressed(out, k, e) && #[trigger] addressed(out, l, e) ==> k == l
            &&& registry.tree.on_chain(m.id, e.id) ==> after.find(e.id) is Some && (exists|k: int|
                #[trigger] addressed(out, k, e) && out[k].1 == Notice::Update(
                    after.find(e.id).unwrap(),
                    true,
                ))
            &&& registry.tree.removes(m.id, m.apply.edit, e.id) ==> after.find(e.id) is None
                && (exists|k: int|
                #[trigger] addressed(out, k, e) && out[k].1 == Notice::<P>::Remove(e.id, true))
            &&& !registry.tree.on_chain(m.id, e.id) && !registry.tree.removes(
                m.id,
                m.apply.edit,
                e.id,
            ) ==> forall|k: int| !#[trigger] addressed(out, k, e)
        }),
{
    let m = event.message->Mutation_0;
    let e = registry.observers[i];
    let after = registry.after(event).tree;
    let out = registry.emits(event);
    let judged = judged_exactly(after, registry.observers);
    assert(after == registry.tree.rewrite(m.id, m.apply.edit, registry.clock));
    assert(out == notices(after, registry.observers, true));
    lemma_exact(after, registry.observers, true);
    law_pass_each(after, registry.observers, judged, true, i);
    assert(tracks(registry.tree, e));
    assert(told(after, judged[i], true) == notice_for(after, e, true));
    after.lemma_find(e.id);
    if registry.tree.on_chain(m.id, e.id) {
        law_propagation(registry.tree, registry.clock, m.id, m.apply.edit, e, true);
    }
    if registry.tree.removes(m.id, m.apply.edit, e.id) {
        law_removal(registry.tree, registry.clock, m.id, m.apply.edit, e, true);
    }
    if !registry.tree.on_chain(m.id, e.id) && !registry.tree.removes(m.id, m.apply.edit, e.id) {
        law_locality(registry.tree, registry.clock, m.id, m.apply.edit, e, true);
    }
}

/// Registration. An actor that registers on an identifier is told at
/// once, and once: the current node where the identifier resolves, and
/// from then on it has the one entry on it, told of that node; a removal
/// where it does not resolve, and then it has no entry on it.
pub proof fn law_registration<P>(registry: Registry<P>, origin: Entity, id: ID)
    requires
        registry.wf(),
        !origin.is_null(),
    ensures
        ({
            let event = Event::upward(origin, Message::<P>::Configure(ConfigureObserver::Register(id)));
            let after = registry.after(event);
            &&& registry.violation(event) is None
            &&& after.tree == registry.tree
            &&& after.wf()
            &&& registry.tree.find(id) matches Some(t) ==> {
                &&& registry.emits(event) == seq![(origin, Notice::Update(t, false))]
                &&& after.observers.len() > 0
                &&& after.observers.last() == (Entry { entity: origin, id, seen: t })
            }
            &&& registry.tree.find(id) is None ==> {
                &&& registry.emits(event) == seq![(origin, Notice::<P>::Remove(id, false))]
                &&& forall|k: int|
                    0 <= k < after.observers.len() ==> (#[trigger] after.observers[k]).id != id
            }
        }),
{
    lemma_registered(registry.tree, registry.observers, origin, id);
}

/// Staleness. A mutation that is bound to another node than the one
/// which its identifier resolves to, whatever the headers of the two, or
/// whose identifier does not resolve, is rejected as stale, by every answer
/// that is not a wrong yes; and a rejected event leaves the manager as it
/// was.
pub proof fn law_staleness<P>(registry: Registry<P>, event: Event<P>, live: bool)
    requires
        !event.origin.is_null(),
        event.message matches Message::Mutation(m) && !registry.bound(m) && (live
            ==> registry.bound(m)),
    ensures
        registry.violation(event) == Some(Violation::Stale),
        registry.verdict(event, live) == Some(Violation::Stale),
{
}

/// Replacement. When another container has taken the place of the live
/// one, whatever container it is: each observer whose identifier does not
/// resolve in it is sent exactly one notification, the removal, and is
/// dropped; each one whose identifier resolves to another node than the one
/// it has seen is sent exactly one, the update with that node; each other
/// observer is sent at most one, which then tells it the node it has seen;
/// and every observer that is left was told of the node that its identifier
/// resolves to. No change is missed, whatever the headers say.
pub proof fn law_replacement<P>(
    registry: Registry<P>,
    tree: Tree<P>,
    clock: u64,
    judged: Seq<(Entry<P>, bool)>,
    i: int,
)
    requires
        registry.wf(),
        judges(judged, registry.observers),
        sound(tree, judged),
        0 <= i < registry.observers.len(),
    ensures
        ({
            let e = registry.observers[i];
            let out = notices_given(tree, judged, false);
            let after = registry.replaced(tree, clock);
            &&& after.tree == tree
            &&& after.clock >= registry.clock
            &&& forall|k: int|
                0 <= k < after.observers.len() ==> tracks(tree, #[trigger] after.observers[k])
            &&& forall|k: int, l: int|
                #[trigger] addressed(out, k, e) && #[trigger] addressed(out, l, e) ==> k == l
            &&& tree.find(e.id) is None ==> (exists|k: int|
                #[trigger] addressed(out, k, e) && out[k].1 == Notice::<P>::Remove(e.id, false))
                && refreshed(tree, e) is None
            &&& tree.find(e.id) is Some && tree.find(e.id) != Some(e.seen) ==> exists|k: int|
                #[trigger] addressed(out, k, e) && out[k].1 == Notice::Update(
                    tree.find(e.id).unwrap(),
                    false,
                )
            &&& tree.find(e.id) is Some ==> after.observers.contains(
                Entry { entity: e.entity, id: e.id, seen: tree.find(e.id).unwrap() },
            ) && forall|k: int| #[trigger]
                addressed(out, k, e) ==> out[k].1 == Notice::Update(tree.find(e.id).unwrap(), false)
        }),
{
    let e = registry.observers[i];
    law_pass_each(tree, registry.observers, judged, false, i);
    law_pass_leaves(tree, registry.observers);
    assert(judged[i].0 == e);
    if judged[i].1 {
        assert(tracks(tree, judged[i].0));
    }
}

} // verus!
