//! The messages that actors and the manager exchange, and how a request is
//! routed towards the manager.

use std::rc::Rc;
use vstd::prelude::*;
use crate::ident::{ID, Kind, Entity};
use crate::tree::{Edit, Tree};
use crate::node::Node;

verus! {

/// How an event travels through the tree of actors.
#[derive(Clone, Copy, Debug, PartialEq, Eq, Structural)]
pub enum Propagation {
    Down,
    Up,
    DownUp,
    Fall,
    Direct,
    All,
}

/// What an actor asks of the registry of observers.
#[derive(Clone, Copy, Debug, PartialEq, Eq, Structural)]
pub enum ConfigureObserver {
    /// Track the root of the tree.
    RegisterRoot,
    /// Track the node with this identifier.
    Register(ID),
    /// Drop whatever the actor tracks, then track this node.
    Replace(ID),
    /// No longer track this node.
    Unregister(ID),
    /// No longer track anything.
    UnregisterEntity,
}

/// A deferred operation on a node: what to do, and the payload type of the
/// nodes that it was written for.
#[derive(Clone, Debug)]
pub struct Change<P> {
    pub kind: Kind,
    pub edit: Edit<P>,
}

impl<P> Change<P> {
    /// The operation `edit`, written for nodes of payload type `kind`.
    pub fn new(kind: Kind, edit: Edit<P>) -> (c: Self)
        ensures
            c == (Change { kind, edit }),
    {
        Change { kind, edit }
    }
}

/// A mutation request, bound to the instance it was computed against. It
/// holds that instance, so that the manager can tell it from any other
/// node, whatever header that one carries.
#[derive(Clone, Debug)]
pub struct MutationEvent<P> {
    /// The node to change.
    pub id: ID,
    /// The instance of that node which the requester saw.
    pub valid_for: Rc<Node<P>>,
    /// What to do to it.
    pub apply: Change<P>,
}

impl<P> MutationEvent<P> {
    /// The request to apply `apply` to `node`, valid for as long as `node`
    /// is the current instance of its logical node.
    pub fn new(node: &Rc<Node<P>>, apply: Change<P>) -> (event: Self)
        ensures
            event == (MutationEvent { id: node@.header.id, valid_for: *node, apply }),
    {
        proof {
            node.lemma_children();
        }
        MutationEvent { id: node.header.id, valid_for: node.clone(), apply }
    }
}

/// What travels towards the manager.
#[derive(Debug)]
pub enum Message<P> {
    Configure(ConfigureObserver),
    Mutation(MutationEvent<P>),
}

/// A message with the actors it comes from and goes to.
#[derive(Debug)]
pub struct Event<P> {
    /// The actor that issued the event.
    pub origin: Entity,
    /// The actor at which the event starts its way.
    pub target: Entity,
    pub propagation: Propagation,
    pub message: Message<P>,
}

impl<P> Event<P> {
    /// The event that carries `message` upwards from `entity`, in the
    /// name of `entity`.
    pub open spec fn upward(entity: Entity, message: Message<P>) -> Event<P> {
        Event { origin: entity, target: entity, propagation: Propagation::Up, message }
    }
}

/// The request to mutate `node` as `apply` says, issued by `entity` and
/// bound for whichever manager stands above it.
pub fn mutate<P>(entity: Entity, node: &Rc<Node<P>>, apply: Change<P>) -> (event: Event<P>)
    ensures
        event == Event::upward(
            entity,
            Message::Mutation(MutationEvent { id: node@.header.id, valid_for: *node, apply }),
        ),
{
    Event {
        origin: entity,
        target: entity,
        propagation: Propagation::Up,
        message: Message::Mutation(MutationEvent::new(node, apply)),
    }
}

/// The request `data` of `entity` to the registry of whichever manager
/// stands above it.
pub fn configure_observer<P>(entity: Entity, data: ConfigureObserver) -> (event: Event<P>)
    ensures
        event == Event::<P>::upward(entity, Message::Configure(data)),
{
    Event {
        origin: entity,
        target: entity,
        propagation: Propagation::Up,
        message: Message::Configure(data),
    }
}

/// What the manager tells an observer.
#[derive(Debug)]
pub enum DynUpdateEvent<P> {
    /// The tracked node is now this instance.
    Update(Rc<Node<P>>, bool),
    /// The tracked identifier names no node any more.
    Remove(ID, bool),
}

/// A notification as the contracts speak of it: the snapshot in place of
/// the shared node. The flag tells a change made by a mutation (set) from
/// one made by putting another container in place (clear).
pub enum Notice<P> {
    Update(Tree<P>, bool),
    Remove(ID, bool),
}

impl<P> Notice<P> {
    /// The identifier that the notification is about.
    pub open spec fn subject(self) -> ID {
        match self {
            Notice::Update(t, _) => t.header.id,
            Notice::Remove(id, _) => id,
        }
    }
}

impl<P> View for DynUpdateEvent<P> {
    type V = Notice<P>;

    open spec fn view(&self) -> Notice<P> {
        match *self {
            DynUpdateEvent::Update(node, animate) => Notice::Update(node@, animate),
            DynUpdateEvent::Remove(id, animate) => Notice::Remove(id, animate),
        }
    }
}

/// A notification with the one actor that it is delivered to, directly.
#[derive(Debug)]
pub struct Delivery<P> {
    pub target: Entity,
    pub event: DynUpdateEvent<P>,
}

impl<P> View for Delivery<P> {
    type V = (Entity, Notice<P>);

    open spec fn view(&self) -> (Entity, Notice<P>) {
        (self.target, self.event@)
    }
}

/// The notifications of a list, in its order.
pub open spec fn delivered<P>(list: Seq<Delivery<P>>) -> Seq<(Entity, Notice<P>)> {
    Seq::new(list.len(), |i: int| list[i]@)
}

} // verus!
