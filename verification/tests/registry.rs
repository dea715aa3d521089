use std::rc::Rc;
use tuix_reactive::event::{
    configure_observer, mutate, Change, ConfigureObserver, Delivery, DynUpdateEvent, Event,
    Message, MutationEvent, Propagation,
};
use tuix_reactive::ident::{Entity, Header, ID};
use tuix_reactive::manager::MutationManager;
use tuix_reactive::node::Node;
use tuix_reactive::observer::{
    add_observer, check_all_observers, remove_entity, remove_observer, settle, Observer,
};
use tuix_reactive::state::State;
use tuix_reactive::tree::Edit;
use tuix_reactive::violation::Violation;

const ROOT: u32 = 1;
const ITEM: u32 = 2;

fn actor(raw: u32) -> Entity {
    Entity { raw }
}

fn listing(observers: &[Observer<u8>]) -> Vec<(Entity, ID, Header)> {
    observers.iter().map(|o| (o.entity, o.id, o.seen.header)).collect()
}

fn register(id: ID) -> ConfigureObserver {
    ConfigureObserver::Register(id)
}

fn is_update_of(delivery: &Delivery<u8>, to: Entity, node: &Rc<Node<u8>>, animate: bool) -> bool {
    match &delivery.event {
        DynUpdateEvent::Update(n, a) => delivery.target == to && Rc::ptr_eq(n, node) && *a == animate,
        DynUpdateEvent::Remove(_, _) => false,
    }
}

fn is_removal_of(delivery: &Delivery<u8>, to: Entity, id: ID, animate: bool) -> bool {
    match &delivery.event {
        DynUpdateEvent::Update(_, _) => false,
        DynUpdateEvent::Remove(i, a) => delivery.target == to && *i == id && *a == animate,
    }
}

/// root(0) with children a(1) and b(2), and c(3) under b
fn sample() -> (MutationManager<u8>, ID, ID, ID, ID) {
    let mut state = State::construct(ROOT, 0u8);
    let a = state.append_child(&state.root_ref(), ITEM, 1).unwrap();
    let b = state.append_child(&state.root_ref(), ITEM, 2).unwrap();
    let c = state.append_child(&b, ITEM, 3).unwrap();
    let root = state.header().id;
    (MutationManager::new(state), root, a.header.id, b.header.id, c.header.id)
}

#[test]
fn a_new_manager_has_no_observers() {
    let (manager, root, _, _, _) = sample();
    assert!(manager.observers().is_empty());
    assert_eq!(manager.state().header().id, root);
    assert_eq!(manager.state().next_stamp(), 4);
    assert!(Rc::ptr_eq(&manager.clone_state().root_ref(), &manager.state().root_ref()));
}

#[test]
fn register_answers_with_the_current_instance() {
    let (mut manager, _, a, _, _) = sample();
    let node = manager.state().ref_from_id(a).unwrap();
    let out = manager.on_event(configure_observer(actor(5), register(a))).unwrap();
    assert_eq!(out.len(), 1);
    assert!(is_update_of(&out[0], actor(5), &node, false));
    assert_eq!(listing(manager.observers()), vec![(actor(5), a, node.header)]);
    assert!(Rc::ptr_eq(&manager.observers()[0].seen, &node));
}

#[test]
fn register_on_what_does_not_resolve_answers_with_a_removal() {
    let (mut manager, root, _, _, _) = sample();
    let nowhere = ID { raw: 99 };
    let out = manager.on_event(configure_observer(actor(5), register(nowhere))).unwrap();
    assert_eq!(out.len(), 1);
    assert!(is_removal_of(&out[0], actor(5), nowhere, false));
    assert!(manager.observers().is_empty());
    // no entry was made: a mutation tells the actor nothing
    let node = manager.state().ref_from_id(root).unwrap();
    let out = manager
        .on_event(mutate(actor(6), &node, Change::new(ROOT, Edit::Append(ITEM, 9))))
        .unwrap();
    assert!(out.is_empty());
    // the identifier of the new child is none that was asked for before
    assert!(manager.state().ref_from_id(nowhere).is_none());
}

#[test]
fn register_root_tracks_the_root() {
    let (mut manager, root, _, _, _) = sample();
    let node = manager.state().root_ref();
    let out = manager
        .on_event(configure_observer(actor(1), ConfigureObserver::RegisterRoot))
        .unwrap();
    assert_eq!(out.len(), 1);
    assert!(is_update_of(&out[0], actor(1), &node, false));
    assert_eq!(listing(manager.observers()), vec![(actor(1), root, node.header)]);
    assert!(Rc::ptr_eq(&manager.observers()[0].seen, &node));
}

#[test]
fn registering_twice_leaves_one_entry() {
    let (mut manager, root, a, _, _) = sample();
    manager.on_event(configure_observer(actor(1), register(a))).unwrap();
    manager.on_event(configure_observer(actor(2), register(a))).unwrap();
    manager.on_event(configure_observer(actor(1), register(root))).unwrap();
    let out = manager.on_event(configure_observer(actor(1), register(a))).unwrap();
    assert_eq!(out.len(), 1);
    let entries: Vec<(Entity, ID)> =
        manager.observers().iter().map(|o| (o.entity, o.id)).collect();
    assert_eq!(entries, vec![(actor(2), a), (actor(1), root), (actor(1), a)]);

    let node = manager.state().ref_from_id(a).unwrap();
    let out = manager
        .on_event(mutate(actor(1), &node, Change::new(ITEM, Edit::Replace(7))))
        .unwrap();
    // one update for each entry: actor 2 on a, actor 1 on the root, actor 1 on a
    assert_eq!(out.len(), 3);
    let new_a = manager.state().ref_from_id(a).unwrap();
    let new_root = manager.state().root_ref();
    assert!(is_update_of(&out[0], actor(2), &new_a, true));
    assert!(is_update_of(&out[1], actor(1), &new_root, true));
    assert!(is_update_of(&out[2], actor(1), &new_a, true));
}

#[test]
fn replace_drops_whatever_the_actor_tracked() {
    let (mut manager, root, a, b, c) = sample();
    manager.on_event(configure_observer(actor(1), register(a))).unwrap();
    manager.on_event(configure_observer(actor(1), register(b))).unwrap();
    manager.on_event(configure_observer(actor(2), register(b))).unwrap();
    let node = manager.state().ref_from_id(c).unwrap();
    let out = manager
        .on_event(configure_observer(actor(1), ConfigureObserver::Replace(c)))
        .unwrap();
    assert_eq!(out.len(), 1);
    assert!(is_update_of(&out[0], actor(1), &node, false));
    let b_header = manager.state().ref_from_id(b).unwrap().header;
    assert_eq!(
        listing(manager.observers()),
        vec![(actor(2), b, b_header), (actor(1), c, node.header)]
    );

    // replacing by what does not resolve leaves the actor without entry
    let out = manager
        .on_event(configure_observer(actor(1), ConfigureObserver::Replace(ID { raw: 50 })))
        .unwrap();
    assert_eq!(out.len(), 1);
    assert!(is_removal_of(&out[0], actor(1), ID { raw: 50 }, false));
    assert_eq!(listing(manager.observers()), vec![(actor(2), b, b_header)]);
    let _ = root;
}

#[test]
fn unregister_is_silent_and_takes_the_one_entry() {
    let (mut manager, _, a, b, _) = sample();
    manager.on_event(configure_observer(actor(1), register(a))).unwrap();
    manager.on_event(configure_observer(actor(1), register(b))).unwrap();
    manager.on_event(configure_observer(actor(2), register(a))).unwrap();
    let out = manager
        .on_event(configure_observer(actor(1), ConfigureObserver::Unregister(a)))
        .unwrap();
    assert!(out.is_empty());
    let entries: Vec<(Entity, ID)> =
        manager.observers().iter().map(|o| (o.entity, o.id)).collect();
    assert_eq!(entries, vec![(actor(1), b), (actor(2), a)]);
    // withdrawing what is not tracked changes nothing
    let out = manager
        .on_event(configure_observer(actor(3), ConfigureObserver::Unregister(a)))
        .unwrap();
    assert!(out.is_empty());
    assert_eq!(manager.observers().len(), 2);
}

#[test]
fn unregister_entity_takes_all_entries_of_the_actor() {
    let (mut manager, root, a, b, _) = sample();
    manager.on_event(configure_observer(actor(1), register(a))).unwrap();
    manager.on_event(configure_observer(actor(2), register(a))).unwrap();
    manager.on_event(configure_observer(actor(1), register(b))).unwrap();
    manager.on_event(configure_observer(actor(1), register(root))).unwrap();
    let out = manager
        .on_event(configure_observer(actor(1), ConfigureObserver::UnregisterEntity))
        .unwrap();
    assert!(out.is_empty());
    let entries: Vec<(Entity, ID)> =
        manager.observers().iter().map(|o| (o.entity, o.id)).collect();
    assert_eq!(entries, vec![(actor(2), a)]);
    // a mutation of b reaches nobody now
    let node = manager.state().ref_from_id(b).unwrap();
    let out = manager
        .on_event(mutate(actor(1), &node, Change::new(ITEM, Edit::Replace(7))))
        .unwrap();
    assert!(out.is_empty());
}

#[test]
fn an_event_without_origin_is_rejected() {
    let (mut manager, _, a, _, _) = sample();
    manager.on_event(configure_observer(actor(1), register(a))).unwrap();
    let before = manager.state().root_ref();

    let commands = [
        ConfigureObserver::RegisterRoot,
        ConfigureObserver::Register(a),
        ConfigureObserver::Replace(a),
        ConfigureObserver::Unregister(a),
        ConfigureObserver::UnregisterEntity,
    ];
    for command in commands {
        let rejected = manager.on_event(configure_observer(Entity::null(), command));
        assert_eq!(rejected.unwrap_err(), Violation::NullOrigin);
    }
    let node = manager.state().ref_from_id(a).unwrap();
    let rejected =
        manager.on_event(mutate(Entity::null(), &node, Change::new(ITEM, Edit::Replace(7))));
    assert_eq!(rejected.unwrap_err(), Violation::NullOrigin);
    // the origin decides, not the target
    let event = Event {
        origin: Entity::null(),
        target: actor(1),
        propagation: Propagation::Direct,
        message: Message::Configure(ConfigureObserver::UnregisterEntity),
    };
    assert_eq!(manager.on_event(event).unwrap_err(), Violation::NullOrigin);

    assert_eq!(manager.observers().len(), 1);
    assert!(Rc::ptr_eq(&manager.state().root_ref(), &before));
}

#[test]
fn a_stale_mutation_is_rejected_and_changes_nothing() {
    let (mut manager, root, a, _, _) = sample();
    manager.on_event(configure_observer(actor(1), register(root))).unwrap();
    let seen = manager.state().ref_from_id(a).unwrap();
    manager
        .on_event(mutate(actor(1), &seen, Change::new(ITEM, Edit::Replace(10))))
        .unwrap();
    let root_before = manager.state().root_ref();
    let stamp = manager.state().next_stamp();
    let observers_before = listing(manager.observers());

    // the same request once more: it was computed against the old instance
    let rejected =
        manager.on_event(mutate(actor(1), &seen, Change::new(ITEM, Edit::Replace(11))));
    assert_eq!(rejected.unwrap_err(), Violation::Stale);
    // a request for what is not in the tree
    let mut elsewhere = State::construct(ROOT, 0u8);
    elsewhere.advance_clock(1234);
    let unknown = elsewhere.append_child(&elsewhere.root_ref(), ITEM, 1).unwrap();
    assert!(manager.state().ref_from_id(unknown.header.id).is_none());
    let ghost = MutationEvent::new(&unknown, Change::new(ITEM, Edit::Replace(1)));
    let event = Event {
        origin: actor(1),
        target: actor(1),
        propagation: Propagation::Up,
        message: Message::Mutation(ghost),
    };
    assert_eq!(manager.on_event(event).unwrap_err(), Violation::Stale);
    // a request whose identifier and instance disagree
    let current = manager.state().ref_from_id(a).unwrap();
    let crossed = MutationEvent {
        id: root,
        valid_for: current.clone(),
        apply: Change::new(ITEM, Edit::Replace(1)),
    };
    let event = Event {
        origin: actor(1),
        target: actor(1),
        propagation: Propagation::Up,
        message: Message::Mutation(crossed),
    };
    assert_eq!(manager.on_event(event).unwrap_err(), Violation::Stale);

    assert!(Rc::ptr_eq(&manager.state().root_ref(), &root_before));
    assert_eq!(*manager.state().ref_from_id(a).unwrap().payload, 10);
    assert_eq!(manager.state().next_stamp(), stamp);
    assert_eq!(listing(manager.observers()), observers_before);
}

#[test]
fn a_mutation_for_another_type_of_node_is_rejected() {
    let (mut manager, root, a, _, _) = sample();
    manager.on_event(configure_observer(actor(1), register(root))).unwrap();
    let node = manager.state().ref_from_id(a).unwrap();
    let root_before = manager.state().root_ref();

    let rejected =
        manager.on_event(mutate(actor(1), &node, Change::new(ROOT, Edit::Replace(10))));
    assert_eq!(rejected.unwrap_err(), Violation::TypeMismatch);
    assert!(Rc::ptr_eq(&manager.state().root_ref(), &root_before));
    assert_eq!(*manager.state().ref_from_id(a).unwrap().payload, 1);

    // staleness is found before the type
    let accepted = manager
        .on_event(mutate(actor(1), &node, Change::new(ITEM, Edit::Replace(10))))
        .unwrap();
    assert_eq!(accepted.len(), 1);
    let rejected =
        manager.on_event(mutate(actor(1), &node, Change::new(ROOT, Edit::Replace(11))));
    assert_eq!(rejected.unwrap_err(), Violation::Stale);
}

#[test]
fn a_manager_without_stamps_rejects_mutations() {
    let mut state = State::construct(ROOT, 0u8);
    state.advance_clock(u64::MAX);
    let mut manager = MutationManager::new(state);
    manager
        .on_event(configure_observer(actor(1), ConfigureObserver::RegisterRoot))
        .unwrap();
    let root = manager.state().root_ref();
    let rejected =
        manager.on_event(mutate(actor(1), &root, Change::new(ROOT, Edit::Replace(1))));
    assert_eq!(rejected.unwrap_err(), Violation::Exhausted);
    let rejected =
        manager.on_event(mutate(actor(1), &root, Change::new(ITEM, Edit::Replace(1))));
    assert_eq!(rejected.unwrap_err(), Violation::TypeMismatch);
    assert!(Rc::ptr_eq(&manager.state().root_ref(), &root));
    assert_eq!(manager.observers().len(), 1);
}

#[test]
fn requests_travel_upwards_in_the_name_of_their_actor() {
    let state = State::construct(ROOT, 0u8);
    let root = state.root_ref();
    let event = mutate(actor(4), &root, Change::new(ROOT, Edit::Replace(1)));
    assert_eq!(event.origin, actor(4));
    assert_eq!(event.target, actor(4));
    assert_eq!(event.propagation, Propagation::Up);
    match event.message {
        Message::Mutation(m) => {
            assert_eq!(m.id, root.header.id);
            assert!(Rc::ptr_eq(&m.valid_for, &root));
            assert_eq!(m.apply.kind, ROOT);
            assert!(matches!(m.apply.edit, Edit::Replace(1)));
        }
        Message::Configure(_) => panic!("a mutation was asked for"),
    }
    let event = configure_observer::<u8>(actor(4), ConfigureObserver::Replace(ID { raw: 3 }));
    assert_eq!(event.origin, actor(4));
    assert_eq!(event.target, actor(4));
    assert_eq!(event.propagation, Propagation::Up);
    match event.message {
        Message::Configure(c) => assert_eq!(c, ConfigureObserver::Replace(ID { raw: 3 })),
        Message::Mutation(_) => panic!("a command was asked for"),
    }
}

#[test]
fn a_request_is_bound_to_the_instance_it_was_made_for() {
    let mut state = State::construct(ROOT, 0u8);
    let before = state.root_ref();
    let request = MutationEvent::new(&before, Change::new(ROOT, Edit::Replace(1)));
    assert_eq!(request.id, before.header.id);
    assert!(Rc::ptr_eq(&request.valid_for, &before));
    assert!(state.is_live(&request.valid_for));
    state.mutate(&state.root_ref(), Edit::Replace(3)).unwrap();
    assert!(!state.is_live(&request.valid_for));
    let again = request.clone();
    assert!(Rc::ptr_eq(&again.valid_for, &before));
    assert!(matches!(again.apply.edit, Edit::Replace(1)));
}

#[test]
fn the_pass_by_itself() {
    let mut state = State::construct(ROOT, 0u8);
    let old_root = state.root_ref();
    let a = state.append_child(&state.root_ref(), ITEM, 1).unwrap();
    let root = state.root_ref();
    let observers = vec![
        Observer { entity: actor(1), id: a.header.id, seen: a.clone() },
        Observer { entity: actor(2), id: ID { raw: 40 }, seen: a.clone() },
        Observer { entity: actor(3), id: root.header.id, seen: old_root },
    ];
    let (left, out) = check_all_observers(&state, &observers, false);
    assert_eq!(
        listing(&left),
        vec![(actor(1), a.header.id, a.header), (actor(3), root.header.id, root.header)]
    );
    assert!(Rc::ptr_eq(&left[1].seen, &root));
    assert_eq!(out.len(), 2);
    assert!(is_removal_of(&out[0], actor(2), ID { raw: 40 }, false));
    assert!(is_update_of(&out[1], actor(3), &root, false));

    let (left, out) = check_all_observers(&state, &left, true);
    assert_eq!(left.len(), 2);
    assert!(out.is_empty());
}

#[test]
fn the_pass_goes_by_the_node_not_by_the_header() {
    let base = State::construct(ROOT, 0u8);
    let mut first = base.clone();
    let mut second = base.clone();
    let in_first = first.mutate(&base.root_ref(), Edit::Replace(5)).unwrap();
    let in_second = second.mutate(&base.root_ref(), Edit::Replace(9)).unwrap();
    assert_eq!(in_first.header, in_second.header);
    let observers = vec![Observer { entity: actor(1), id: base.header().id, seen: in_first }];

    let (left, out) = check_all_observers(&second, &observers, false);

    assert_eq!(out.len(), 1);
    assert!(is_update_of(&out[0], actor(1), &in_second, false));
    assert_eq!(left.len(), 1);
    assert!(Rc::ptr_eq(&left[0].seen, &in_second));
}

#[test]
fn one_observer_is_settled_by_what_was_found_and_the_answer() {
    let mut state = State::construct(ROOT, 0u8);
    let seen = state.root_ref();
    let now = state.mutate(&state.root_ref(), Edit::Replace(1)).unwrap();
    let o = Observer { entity: actor(1), id: seen.header.id, seen: seen.clone() };

    let (left, notice) = settle(&o, Some(now.clone()), false, true);
    let left = left.unwrap();
    assert_eq!((left.entity, left.id), (actor(1), seen.header.id));
    assert!(Rc::ptr_eq(&left.seen, &now));
    assert!(is_update_of(&notice.unwrap(), actor(1), &now, true));

    let (left, notice) = settle(&o, Some(seen.clone()), true, true);
    assert!(Rc::ptr_eq(&left.unwrap().seen, &seen));
    assert!(notice.is_none());

    let (left, notice) = settle(&o, None, false, false);
    assert!(left.is_none());
    assert!(is_removal_of(&notice.unwrap(), actor(1), seen.header.id, false));
}

#[test]
fn the_registry_by_itself() {
    let mut state = State::construct(ROOT, 0u8);
    let a = state.append_child(&state.root_ref(), ITEM, 1).unwrap();
    let root = state.root_ref();
    let observers = vec![
        Observer { entity: actor(1), id: a.header.id, seen: a.clone() },
        Observer { entity: actor(2), id: a.header.id, seen: a.clone() },
        Observer { entity: actor(1), id: ID { raw: 0 }, seen: root.clone() },
    ];
    let all = listing(&observers);
    assert_eq!(
        listing(&remove_observer(&observers, actor(1), a.header.id)),
        vec![all[1], all[2]]
    );
    assert_eq!(listing(&remove_observer(&observers, actor(3), a.header.id)), all);
    assert_eq!(listing(&remove_entity(&observers, actor(1))), vec![all[1]]);
    assert_eq!(listing(&remove_entity(&observers, actor(3))), all);

    let (left, hello) = add_observer(&state, &observers, actor(1), a.header.id);
    assert_eq!(listing(&left), vec![all[1], all[2], all[0]]);
    assert!(is_update_of(&hello, actor(1), &a, false));
    // registering on what does not resolve leaves the actor without entry on it
    let (left, hello) = add_observer(&state, &observers, actor(1), ID { raw: 9 });
    assert_eq!(listing(&left), all);
    assert!(is_removal_of(&hello, actor(1), ID { raw: 9 }, false));
}

#[test]
fn a_request_made_against_a_clone_mutated_apart_is_stale() {
    let base = State::construct(ROOT, 0u8);
    let mut first = base.clone();
    let mut second = base.clone();
    first.mutate(&base.root_ref(), Edit::Replace(5)).unwrap();
    let in_second = second.mutate(&base.root_ref(), Edit::Replace(9)).unwrap();
    assert_eq!(first.header(), in_second.header);
    let mut manager = MutationManager::new(first);
    manager
        .on_event(configure_observer(actor(1), ConfigureObserver::RegisterRoot))
        .unwrap();
    let live = manager.state().root_ref();

    let rejected =
        manager.on_event(mutate(actor(1), &in_second, Change::new(ROOT, Edit::Replace(1))));

    assert_eq!(rejected.unwrap_err(), Violation::Stale);
    assert!(Rc::ptr_eq(&manager.state().root_ref(), &live));
    assert_eq!(*manager.state().root().payload, 5);
}

#[test]
fn the_handler_goes_by_the_answer_it_is_given() {
    let (mut manager, root, a, _, _) = sample();
    manager.on_event(configure_observer(actor(1), register(root))).unwrap();
    let node = manager.state().ref_from_id(a).unwrap();
    let before = manager.state().root_ref();

    // the answer no: stale, whatever the request
    let rejected =
        manager.handle(mutate(actor(1), &node, Change::new(ITEM, Edit::Replace(7))), false);
    assert_eq!(rejected.unwrap_err(), Violation::Stale);
    let rejected =
        manager.handle(mutate(actor(1), &node, Change::new(ROOT, Edit::Replace(7))), false);
    assert_eq!(rejected.unwrap_err(), Violation::Stale);
    assert!(Rc::ptr_eq(&manager.state().root_ref(), &before));
    // no origin comes first
    let rejected = manager
        .handle(mutate(Entity::null(), &node, Change::new(ITEM, Edit::Replace(7))), false);
    assert_eq!(rejected.unwrap_err(), Violation::NullOrigin);
    // the answer yes: the type is looked at, then the mutation is applied
    let rejected =
        manager.handle(mutate(actor(1), &node, Change::new(ROOT, Edit::Replace(7))), true);
    assert_eq!(rejected.unwrap_err(), Violation::TypeMismatch);
    let out = manager
        .handle(mutate(actor(1), &node, Change::new(ITEM, Edit::Replace(7))), true)
        .unwrap();
    assert_eq!(out.len(), 1);
    assert!(is_update_of(&out[0], actor(1), &manager.state().root_ref(), true));
    assert_eq!(*manager.state().ref_from_id(a).unwrap().payload, 7);
    // of a command the answer is not asked
    let out = manager.handle(configure_observer(actor(2), register(a)), false).unwrap();
    assert_eq!(out.len(), 1);
}
