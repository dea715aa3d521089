use tuix_reactive::event::{ConfigureObserver, Propagation};
use tuix_reactive::ident::{Entity, Header, ID};
use tuix_reactive::violation::Violation;

#[test]
fn the_null_handle_names_no_actor() {
    assert!(Entity::null().is_null());
    assert_eq!(Entity::null(), Entity { raw: u32::MAX });
    assert!(!Entity { raw: 0 }.is_null());
    assert!(!Entity { raw: u32::MAX - 1 }.is_null());
}

#[test]
fn headers_name_the_same_as_when_all_of_them_agrees() {
    let h = Header { id: ID { raw: 3 }, version: 8, kind: 2 };
    assert!(h.same_as(&Header { id: ID { raw: 3 }, version: 8, kind: 2 }));
    assert!(!h.same_as(&Header { id: ID { raw: 4 }, version: 8, kind: 2 }));
    assert!(!h.same_as(&Header { id: ID { raw: 3 }, version: 9, kind: 2 }));
    assert!(!h.same_as(&Header { id: ID { raw: 3 }, version: 8, kind: 1 }));
    assert_eq!(h.id(), ID { raw: 3 });
}

#[test]
fn each_violation_says_what_it_is() {
    assert_eq!(Violation::NullOrigin.describe(), "received event without origin");
    assert_eq!(
        Violation::Stale.describe(),
        "mutation does not apply to current version of node"
    );
    assert_eq!(
        Violation::TypeMismatch.describe(),
        "mutation does not apply to this type of node"
    );
    assert_eq!(Violation::Exhausted.describe(), "snapshot has no stamp left");
}

#[test]
fn plain_values_compare_by_their_fields() {
    assert_eq!(ConfigureObserver::Register(ID { raw: 1 }), ConfigureObserver::Register(ID { raw: 1 }));
    assert_ne!(ConfigureObserver::Register(ID { raw: 1 }), ConfigureObserver::Replace(ID { raw: 1 }));
    assert_ne!(ConfigureObserver::RegisterRoot, ConfigureObserver::UnregisterEntity);
    assert_ne!(Propagation::Up, Propagation::Direct);
}
