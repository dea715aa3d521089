use std::rc::Rc;
use tuix_reactive::event::{
    configure_observer, mutate, Change, ConfigureObserver, Delivery, DynUpdateEvent,
};
use tuix_reactive::ident::Entity;
use tuix_reactive::manager::MutationManager;
use tuix_reactive::node::Node;
use tuix_reactive::state::State;
use tuix_reactive::tree::Edit;

const ROOT: u32 = 1;
const ITEM: u32 = 2;

fn actor(raw: u32) -> Entity {
    Entity { raw }
}

fn the_update(out: &[Delivery<u8>], to: Entity) -> (Rc<Node<u8>>, bool) {
    let mut found = Vec::new();
    for d in out {
        if d.target == to {
            match &d.event {
                DynUpdateEvent::Update(n, a) => found.push((n.clone(), *a)),
                DynUpdateEvent::Remove(id, _) => panic!("a removal of {:?}", id),
            }
        }
    }
    assert_eq!(found.len(), 1);
    found.remove(0)
}

#[test]
fn clones_mutated_apart_differ_though_their_headers_agree() {
    let base = State::construct(ROOT, 0u8);
    let mut first = base.clone();
    let mut second = base.clone();
    first.mutate(&base.root_ref(), Edit::Replace(5)).unwrap();
    second.mutate(&base.root_ref(), Edit::Replace(9)).unwrap();
    assert_eq!(first.header(), second.header());
    let mut manager = MutationManager::new(first);
    let out = manager
        .on_event(configure_observer(actor(1), ConfigureObserver::RegisterRoot))
        .unwrap();
    assert_eq!(*the_update(&out, actor(1)).0.payload, 5);
    let live = second.root_ref();

    let out = manager.replace_state(second);

    assert_eq!(out.len(), 1);
    let (node, animate) = the_update(&out, actor(1));
    assert!(Rc::ptr_eq(&node, &live));
    assert_eq!(*node.payload, 9);
    assert!(!animate);
    assert!(Rc::ptr_eq(&manager.observers()[0].seen, &live));
    assert_eq!(*manager.state().root().payload, 9);
}

#[test]
fn children_appended_apart_are_told_apart() {
    let base = State::construct(ROOT, 0u8);
    let mut first = base.clone();
    let mut second = base.clone();
    let in_first = first.append_child(&base.root_ref(), ITEM, 5).unwrap();
    let in_second = second.append_child(&base.root_ref(), ITEM, 9).unwrap();
    assert_eq!(in_first.header, in_second.header);
    let mut manager = MutationManager::new(first);
    manager
        .on_event(configure_observer(actor(1), ConfigureObserver::Register(in_first.header.id)))
        .unwrap();

    let out = manager.replace_state(second);

    // the observer is told of the node that its identifier now resolves to
    assert_eq!(out.len(), 1);
    let (node, animate) = the_update(&out, actor(1));
    assert!(Rc::ptr_eq(&node, &in_second));
    assert_eq!(*node.payload, 9);
    assert!(!animate);
    assert!(Rc::ptr_eq(&manager.observers()[0].seen, &in_second));
}

#[test]
fn undo_then_a_new_edit_then_the_old_future() {
    let mut manager = MutationManager::new(State::construct(ROOT, 0u8));
    manager
        .on_event(configure_observer(actor(1), ConfigureObserver::RegisterRoot))
        .unwrap();
    let past = manager.clone_state();
    // an edit made on a clone, as a history of containers keeps them
    let mut future = past.clone();
    future.mutate(&future.root_ref(), Edit::Replace(1)).unwrap();
    let out = manager.replace_state(future.clone());
    assert_eq!(*the_update(&out, actor(1)).0.payload, 1);
    // undo
    let out = manager.replace_state(past.clone());
    assert_eq!(*the_update(&out, actor(1)).0.payload, 0);
    // a new edit through the manager
    let root = manager.state().root_ref();
    let out = manager
        .on_event(mutate(actor(1), &root, Change::new(ROOT, Edit::Replace(2))))
        .unwrap();
    let (node, animate) = the_update(&out, actor(1));
    assert_eq!(*node.payload, 2);
    assert!(animate);
    // the old future once more
    let out = manager.replace_state(future);
    let (node, animate) = the_update(&out, actor(1));
    assert_eq!(*node.payload, 1);
    assert!(!animate);
    // and the past once more
    let out = manager.replace_state(past);
    assert_eq!(*the_update(&out, actor(1)).0.payload, 0);
}

#[test]
fn a_container_from_elsewhere_is_compared_node_by_node() {
    let mut manager = MutationManager::new(State::construct(ROOT, 3u8));
    manager
        .on_event(configure_observer(actor(1), ConfigureObserver::RegisterRoot))
        .unwrap();
    // made on its own: its root has the header of the live root
    let foreign = State::construct(ROOT, 4u8);
    assert_eq!(foreign.header(), manager.state().header());
    let out = manager.replace_state(foreign);
    assert_eq!(*the_update(&out, actor(1)).0.payload, 4);
}

#[test]
fn the_same_snapshot_in_place_tells_nothing() {
    let mut state = State::construct(ROOT, 0u8);
    let child = state.append_child(&state.root_ref(), ITEM, 1).unwrap();
    let mut manager = MutationManager::new(state);
    manager
        .on_event(configure_observer(actor(1), ConfigureObserver::RegisterRoot))
        .unwrap();
    manager
        .on_event(configure_observer(actor(2), ConfigureObserver::Register(child.header.id)))
        .unwrap();
    let same = manager.clone_state();
    let out = manager.replace_state(same);
    assert!(out.is_empty());
    assert_eq!(manager.observers().len(), 2);
    // a clone in which only the root changed: the child is the node it was
    let mut other = manager.clone_state();
    other.mutate(&other.root_ref(), Edit::Replace(7)).unwrap();
    let out = manager.replace_state(other);
    assert_eq!(out.len(), 1);
    assert_eq!(*the_update(&out, actor(1)).0.payload, 7);
    assert!(Rc::ptr_eq(&manager.observers()[1].seen, &child));
}
