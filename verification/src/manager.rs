//! The manager: it owns the live container and the registry of observers,
//! applies the requests that reach it, and tells each observer what became
//! of the node it tracks.
//!
//! Events are handled one at a time, each to its end. A request is a
//! value, not code, and the manager is borrowed exclusively while it
//! handles one: nothing can ask for a second mutation in the middle of the
//! first. A request that was computed before an earlier one was applied
//! arrives bound to an instance that is no longer live, and is rejected.

use vstd::prelude::*;
use crate::ident::Entity;
use crate::tree::Tree;
use crate::state::State;
use crate::violation::Violation;
use crate::event::{
    ConfigureObserver,
    MutationEvent,
    Message,
    Event,
    Notice,
    Delivery,
    delivered,
};
use crate::observer::{
    Observer,
    Entry,
    entries,
    in_sync,
    distinct,
    kept,
    notices,
    notices_given,
    judges,
    sound,
    judged_exactly,
    greeting,
    with_observer,
    without_pair,
    without_entity,
    add_observer,
    remove_observer,
    remove_entity,
    pass,
    lemma_exact,
    lemma_headers_decide,
    lemma_kept_in_sync,
    lemma_kept_distinct,
    lemma_filter_in_sync,
    lemma_filter_distinct,
    lemma_registered,
};

verus! {

/// What a manager is, as the contracts speak of it: the live snapshot, the
/// stamp of its next mutation, and the observers in the order in which
/// they are notified.
pub struct Registry<P> {
    pub tree: Tree<P>,
    pub clock: u64,
    pub observers: Seq<Entry<P>>,
}

impl<P> Registry<P> {
    /// What holds of every manager: the snapshot has no duplicates and lies
    /// below the clock, every observer was told of the node that its
    /// identifier resolves to in the snapshot, and no actor has two entries
    /// on one identifier.
    pub open spec fn wf(self) -> bool {
        &&& self.tree.unique()
        &&& self.tree.below(self.clock)
        &&& in_sync(self.tree, self.observers)
        &&& distinct(self.observers)
    }

    /// Whether the request is bound to the live node: the node that it
    /// was computed against is what its identifier resolves to.
    pub open spec fn bound(self, m: MutationEvent<P>) -> bool {
        m.id == m.valid_for@.header.id && self.tree.find(m.id) == Some(m.valid_for@)
    }

    /// The reason for which `event` is rejected, if it is, where `live` is
    /// the answer to whether a mutation is bound to the live node.
    pub open spec fn verdict(self, event: Event<P>, live: bool) -> Option<Violation> {
        if event.origin.is_null() {
            Some(Violation::NullOrigin)
        } else {
            match event.message {
                Message::Configure(_) => None,
                Message::Mutation(m) => match self.tree.find(m.id) {
                    Some(t) => if !live {
                        Some(Violation::Stale)
                    } else if t.header.kind != m.apply.kind {
                        Some(Violation::TypeMismatch)
                    } else if self.clock == u64::MAX {
                        Some(Violation::Exhausted)
                    } else {
                        None
                    },
                    None => Some(Violation::Stale),
                },
            }
        }
    }

    /// The reason for which `event` is rejected, if it is.
    pub open spec fn violation(self, event: Event<P>) -> Option<Violation> {
        match event.message {
            Message::Configure(_) => self.verdict(event, true),
            Message::Mutation(m) => self.verdict(event, self.bound(m)),
        }
    }

    /// The observers after `origin` asked for `command`.
    pub open spec fn configured(self, origin: Entity, command: ConfigureObserver) -> Seq<
        Entry<P>,
    > {
        match command {
            ConfigureObserver::RegisterRoot => with_observer(
                self.tree,
                self.observers,
                origin,
                self.tree.header.id,
            ),
            ConfigureObserver::Register(id) => with_observer(self.tree, self.observers, origin, id),
            ConfigureObserver::Replace(id) => with_observer(
                self.tree,
                without_entity(self.observers, origin),
                origin,
                id,
            ),
            ConfigureObserver::Unregister(id) => without_pair(self.observers, origin, id),
            ConfigureObserver::UnregisterEntity => without_entity(self.observers, origin),
        }
    }

    /// What `origin` is told when it asks for `command`: the current
    /// instance, or a removal, where it registers; nothing where it
    /// withdraws.
    pub open spec fn answers(self, origin: Entity, command: ConfigureObserver) -> Seq<
        (Entity, Notice<P>),
    > {
        match command {
            ConfigureObserver::RegisterRoot => seq![
                greeting(self.tree, origin, self.tree.header.id),
            ],
            ConfigureObserver::Register(id) => seq![greeting(self.tree, origin, id)],
            ConfigureObserver::Replace(id) => seq![greeting(self.tree, origin, id)],
            ConfigureObserver::Unregister(_) => Seq::empty(),
            ConfigureObserver::UnregisterEntity => Seq::empty(),
        }
    }

    /// The manager after an event that is not rejected.
    pub open spec fn after(self, event: Event<P>) -> Registry<P> {
        match event.message {
            Message::Configure(command) => Registry {
                tree: self.tree,
                clock: self.clock,
                observers: self.configured(event.origin, command),
            },
            Message::Mutation(m) => {
                let tree = self.tree.rewrite(m.id, m.apply.edit, self.clock);
                Registry {
                    tree,
                    clock: (self.clock + 1) as u64,
                    observers: kept(tree, self.observers),
                }
            },
        }
    }

    /// The notifications that an event which is not rejected gives rise to.
    pub open spec fn emits(self, event: Event<P>) -> Seq<(Entity, Notice<P>)> {
        match event.message {
            Message::Configure(command) => self.answers(event.origin, command),
            Message::Mutation(m) => notices(
                self.tree.rewrite(m.id, m.apply.edit, self.clock),
                self.observers,
                true,
            ),
        }
    }

    /// The manager after the container with snapshot `tree` and clock
    /// `clock` took the place of the live one.
    pub open spec fn replaced(self, tree: Tree<P>, clock: u64) -> Registry<P> {
        Registry {
            tree,
            clock: if clock < self.clock {
                self.clock
            } else {
                clock
            },
            observers: kept(tree, self.observers),
        }
    }
}

/// Owns the live container and the observers of its nodes.
pub struct MutationManager<P> {
    state: State<P>,
    observers: Vec<Observer<P>>,
}

impl<P> View for MutationManager<P> {
    type V = Registry<P>;

    closed spec fn view(&self) -> Registry<P> {
        Registry {
            tree: self.state@,
            clock: self.state.clock(),
            observers: entries(self.observers@),
        }
    }
}

impl<P> MutationManager<P> {
    /// What holds of every manager.
    #[verifier::type_invariant]
    pub open spec fn wf(&self) -> bool {
        self@.wf()
    }

    /// A manager of `state`, without observers.
    pub fn new(state: State<P>) -> (manager: Self)
        ensures
            manager@ == (Registry { tree: state@, clock: state.clock(), observers: Seq::empty() }),
            manager@.wf(),
    {
        proof {
            use_type_invariant(&state);
        }
        let observers: Vec<Observer<P>> = Vec::new();
        assert(entries(observers@) =~= Seq::empty());
        MutationManager { state, observers }
    }

    /// The live container.
    pub fn state(&self) -> (state: &State<P>)
        ensures
            state@ == self@.tree,
            state.clock() == self@.clock,
    {
        &self.state
    }

    /// The observers, in the order in which they are notified.
    pub fn observers(&self) -> (observers: &Vec<Observer<P>>)
        ensures
            entries(observers@) == self@.observers,
    {
        &self.observers
    }

    /// A handle of its own on the live snapshot.
    pub fn clone_state(&self) -> (state: State<P>)
        ensures
            state@ == self@.tree,
            state.clock() == self@.clock,
    {
        self.state.clone()
    }

    /// Handles one event.
    ///
    /// An event without origin is rejected. A command to the registry is
    /// carried out, and a registration is answered with the current node
    /// or a removal. A mutation is rejected wherever the node that it is
    /// bound to is not the live one, whatever the headers say, and where it
    /// was written for another type of node; else it is applied by
    /// copy-on-write, and the pass over all observers follows, with the
    /// flag set. Whether a request is bound to the live node is decided by
    /// the allocation: a request that is bound to a copy of the live node is
    /// rejected as stale too.
    ///
    /// A rejected event changes nothing. An event that is not rejected is
    /// consumed: it travels no further. Returns the notifications to
    /// deliver, each directly to its actor, in the order of the observers.
    pub fn on_event(&mut self, event: Event<P>) -> (res: Result<Vec<Delivery<P>>, Violation>)
        ensures
            match res {
                Ok(out) => {
                    &&& old(self)@.violation(event) is None
                    &&& final(self)@ == old(self)@.after(event)
                    &&& delivered(out@) == old(self)@.emits(event)
                },
                Err(e) => {
                    &&& final(self)@ == old(self)@
                    &&& old(self)@.violation(event) == Some(e) || (e == Violation::Stale
                        && event.message is Mutation && old(self)@.verdict(event, false) == Some(e))
                },
            },
            event.message is Configure ==> (res is Ok <==> old(self)@.violation(event) is None),
            final(self)@.wf(),
    {
        let live = match &event.message {
            Message::Configure(_) => true,
            Message::Mutation(request) => {
                proof {
                    request.valid_for.lemma_children();
                }
                request.id == request.valid_for.header().id && self.state.is_live(
                    &request.valid_for,
                )
            },
        };
        self.handle(event, live)
    }

    /// Handles one event as `on_event` does, where `live` is the answer to
    /// whether a mutation is bound to the live node. Of a command to the
    /// registry the answer is not asked.
    pub fn handle(&mut self, event: Event<P>, live: bool) -> (res: Result<
        Vec<Delivery<P>>,
        Violation,
    >)
        ensures
            match res {
                Ok(out) => {
                    &&& old(self)@.verdict(event, live) is None
                    &&& final(self)@ == old(self)@.after(event)
                    &&& delivered(out@) == old(self)@.emits(event)
                },
                Err(e) => {
                    &&& old(self)@.verdict(event, live) == Some(e)
                    &&& final(self)@ == old(self)@
                },
            },
            final(self)@.wf(),
    {
        proof {
            use_type_invariant(&*self);
        }
        let entity = event.origin;
        if entity.is_null() {
            return Err(Violation::NullOrigin);
        }
        match event.message {
            Message::Configure(command) => {
                let mut out: Vec<Delivery<P>> = Vec::new();
                match command {
                    ConfigureObserver::RegisterRoot => {
                        let id = self.state.header().id;
                        let (left, hello) = add_observer(&self.state, &self.observers, entity, id);
                        proof {
                            lemma_registered(self@.tree, self@.observers, entity, id);
                        }
                        self.observers = left;
                        out.push(hello);
                    },
                    ConfigureObserver::Register(id) => {
                        let (left, hello) = add_observer(&self.state, &self.observers, entity, id);
                        proof {
                            lemma_registered(self@.tree, self@.observers, entity, id);
                        }
                        self.observers = left;
                        out.push(hello);
                    },
                    ConfigureObserver::Replace(id) => {
                        let cleared = remove_entity(&self.observers, entity);
                        let (left, hello) = add_observer(&self.state, &cleared, entity, id);
                        proof {
                            lemma_filter_in_sync(
                                self@.tree,
                                self@.observers,
                                |e: Entry<P>| e.entity != entity,
                            );
                            lemma_filter_distinct(
                                self@.observers,
                                |e: Entry<P>| e.entity != entity,
                            );
                            lemma_registered(self@.tree, entries(cleared@), entity, id);
                        }
                        self.observers = left;
                        out.push(hello);
                    },
                    ConfigureObserver::Unregister(id) => {
                        let left = remove_observer(&self.observers, entity, id);
                        proof {
                            lemma_filter_in_sync(
                                self@.tree,
                                self@.observers,
                                |e: Entry<P>| !(e.entity == entity && e.id == id),
                            );
                            lemma_filter_distinct(
                                self@.observers,
                                |e: Entry<P>| !(e.entity == entity && e.id == id),
                            );
                        }
                        self.observers = left;
                    },
                    ConfigureObserver::UnregisterEntity => {
                        let left = remove_entity(&self.observers, entity);
                        proof {
                            lemma_filter_in_sync(
                                self@.tree,
                                self@.observers,
                                |e: Entry<P>| e.entity != entity,
                            );
                            lemma_filter_distinct(
                                self@.observers,
                                |e: Entry<P>| e.entity != entity,
                            );
                        }
                        self.observers = left;
                    },
                }
                assert(delivered(out@) =~= old(self)@.emits(event));
                Ok(out)
            },
            Message::Mutation(desc) => {
                let node = match self.state.ref_from_id(desc.id) {
                    Some(node) => node,
                    None => {
                        return Err(Violation::Stale);
                    },
                };
                if !live {
                    return Err(Violation::Stale);
                }
                if node.header().kind != desc.apply.kind {
                    return Err(Violation::TypeMismatch);
                }
                proof {
                    self@.tree.lemma_find(desc.id);
                }
                let mut next = self.state.clone();
                match next.mutate_at(desc.id, desc.apply.edit) {
                    Ok(_) => {
                        let (left, out, Ghost(judged)) = pass(&next, &self.observers, true, true);
                        proof {
                            let before = self@;
                            let exact = judged_exactly(next@, before.observers);
                            assert forall|i: int| 0 <= i < judged.len() implies #[trigger] judged[i]
                                == exact[i] by {
                                lemma_headers_decide(
                                    before.tree,
                                    before.clock,
                                    desc.id,
                                    desc.apply.edit,
                                    before.observers[i],
                                );
                            }
                            assert(judged =~= exact);
                            lemma_exact(next@, before.observers, true);
                            lemma_kept_in_sync(next@, before.observers);
                            lemma_kept_distinct(next@, before.observers);
                        }
                        *self = MutationManager { state: next, observers: left };
                        Ok(out)
                    },
                    Err(e) => Err(e),
                }
            },
        }
    }

    /// Puts `replacement` in the place of the live container, then passes
    /// over all observers, with the flag clear. Nothing is taken for granted
    /// of where `replacement` comes from. Each observer whose identifier
    /// does not resolve in it is sent a removal and dropped. Each other
    /// observer is left, told of the node that its identifier resolves to;
    /// it is sent that node wherever it is another than the one it has
    /// seen, whatever the headers say, and may be sent it where it is the
    /// same node in another allocation. The clock of the live container is
    /// never set back. Returns the notifications to deliver, in the order
    /// of the observers.
    pub fn replace_state(&mut self, replacement: State<P>) -> (out: Vec<Delivery<P>>)
        ensures
            final(self)@ == old(self)@.replaced(replacement@, replacement.clock()),
            exists|judged: Seq<(Entry<P>, bool)>|
                #[trigger] judges(judged, old(self)@.observers) && sound(replacement@, judged)
                    && delivered(out@) == notices_given(replacement@, judged, false),
            final(self)@.wf(),
    {
        proof {
            use_type_invariant(&*self);
        }
        let mut next = replacement;
        next.advance_clock(self.state.next_stamp());
        let (left, out, Ghost(judged)) = pass(&next, &self.observers, false, false);
        proof {
            lemma_kept_in_sync(next@, self@.observers);
            lemma_kept_distinct(next@, self@.observers);
            assert(judges(judged, old(self)@.observers));
        }
        *self = MutationManager { state: next, observers: left };
        out
    }
}

} // verus!
