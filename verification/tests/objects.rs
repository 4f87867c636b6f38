use guestkit::env::Environment;
use guestkit::error::Error;
use guestkit::objc::Payload;

fn fresh_env() -> Environment {
    Environment::new(1 << 16, true)
}

#[test]
fn register_class_is_idempotent_for_identical_definitions() {
    let mut env = fresh_env();
    let a = env
        .objc
        .register_class("Widget", Some("NSObject"), true, Vec::new())
        .unwrap();
    let b = env
        .objc
        .register_class("Widget", Some("NSObject"), true, Vec::new())
        .unwrap();
    assert_eq!(a, b);
}

#[test]
fn register_class_rejects_conflicting_definitions() {
    let mut env = fresh_env();
    env.objc
        .register_class("Widget", Some("NSObject"), true, Vec::new())
        .unwrap();
    let r = env
        .objc
        .register_class("Widget", None, true, Vec::new());
    assert_eq!(
        r,
        Err(Error::ClassConflict {
            name: "Widget".to_string()
        })
    );
}

#[test]
fn refcount_lifecycle_deallocates_exactly_once() {
    let mut env = fresh_env();
    let cls = env
        .objc
        .register_class("Thing", None, true, Vec::new())
        .unwrap();
    let id = env.objc.allocate(&mut env.mem, cls).unwrap();
    assert_eq!(env.objc.refcount_of(id), Ok(1));

    // Two retains, then three releases: dies exactly at the third,
    // when releases == retains + the initial allocation.
    env.objc.retain(id).unwrap();
    env.objc.retain(id).unwrap();
    assert_eq!(env.objc.refcount_of(id), Ok(3));
    env.objc.release(id).unwrap();
    env.objc.release(id).unwrap();
    assert!(env.objc.is_live(id));
    assert_eq!(env.objc.destroyed_log().len(), 0);
    env.objc.release(id).unwrap();
    assert!(!env.objc.is_live(id));
    assert_eq!(env.objc.destroyed_log(), &vec![id]);
}

#[test]
fn double_free_is_a_hard_failure() {
    let mut env = fresh_env();
    let cls = env
        .objc
        .register_class("Thing", None, true, Vec::new())
        .unwrap();
    let id = env.objc.allocate(&mut env.mem, cls).unwrap();
    env.objc.release(id).unwrap();
    assert_eq!(
        env.objc.release(id),
        Err(Error::RefcountViolation { object: id })
    );
    assert_eq!(
        env.objc.retain(id),
        Err(Error::RefcountViolation { object: id })
    );
    // Destroyed exactly once despite the extra attempts.
    assert_eq!(env.objc.destroyed_log().len(), 1);
}

#[test]
fn weak_lookup_does_not_change_the_count() {
    let mut env = fresh_env();
    let cls = env
        .objc
        .register_class("Thing", None, true, Vec::new())
        .unwrap();
    let id = env.objc.allocate(&mut env.mem, cls).unwrap();
    assert!(env.objc.is_live(id));
    assert!(env.objc.is_live(id));
    assert_eq!(env.objc.refcount_of(id), Ok(1));
}

#[test]
fn pool_pop_releases_exactly_the_innermost_contents() {
    let mut env = fresh_env();
    let cls = env
        .objc
        .register_class("Thing", None, true, Vec::new())
        .unwrap();
    let outer_obj = env.objc.allocate(&mut env.mem, cls).unwrap();
    let a = env.objc.allocate(&mut env.mem, cls).unwrap();
    let b = env.objc.allocate(&mut env.mem, cls).unwrap();

    env.objc.push_pool();
    env.objc.autorelease(outer_obj).unwrap();
    env.objc.push_pool();
    env.objc.autorelease(a).unwrap();
    env.objc.autorelease(b).unwrap();
    assert_eq!(env.objc.pool_depth(), 2);

    env.objc.pop_pool().unwrap();
    // Exactly the two ids in the innermost pool were released, once each.
    assert!(!env.objc.is_live(a));
    assert!(!env.objc.is_live(b));
    assert!(env.objc.is_live(outer_obj));
    assert_eq!(env.objc.destroyed_log(), &vec![a, b]);
    assert_eq!(env.objc.pool_depth(), 1);

    env.objc.pop_pool().unwrap();
    assert!(!env.objc.is_live(outer_obj));
}

#[test]
fn pool_pop_without_push_is_fatal() {
    let mut env = fresh_env();
    assert_eq!(env.objc.pop_pool(), Err(Error::PoolImbalance));
}

#[test]
fn autorelease_without_pool_is_fatal() {
    let mut env = fresh_env();
    let cls = env
        .objc
        .register_class("Thing", None, true, Vec::new())
        .unwrap();
    let id = env.objc.allocate(&mut env.mem, cls).unwrap();
    assert_eq!(env.objc.autorelease(id), Err(Error::PoolImbalance));
}

#[test]
fn permanent_objects_ignore_retain_and_release() {
    let mut env = fresh_env();
    let cls = env
        .objc
        .register_class("Tag", None, true, Vec::new())
        .unwrap();
    let id = env
        .objc
        .alloc_static_object(&mut env.mem, cls, Payload::Empty)
        .unwrap();
    env.objc.release(id).unwrap();
    env.objc.release(id).unwrap();
    assert!(env.objc.is_live(id));
    env.objc.retain(id).unwrap();
    assert_eq!(env.objc.refcount_of(id), Ok(1));
    assert_eq!(env.objc.destroyed_log().len(), 0);
}

#[test]
fn payload_can_be_read_and_replaced() {
    let mut env = fresh_env();
    let cls = env
        .objc
        .register_class("Cell", None, true, Vec::new())
        .unwrap();
    let id = env
        .objc
        .alloc_object(&mut env.mem, cls, Payload::Int(7))
        .unwrap();
    assert_eq!(env.objc.borrow_payload(id), Ok(&Payload::Int(7)));
    env.objc.set_payload(id, Payload::Int(9)).unwrap();
    assert_eq!(env.objc.borrow_payload(id), Ok(&Payload::Int(9)));
    assert_eq!(
        env.objc.borrow_payload(12345),
        Err(Error::RefcountViolation { object: 12345 })
    );
}

#[test]
fn permanent_payloads_are_frozen() {
    let mut env = fresh_env();
    let cls = env
        .objc
        .register_class("Tag", None, true, Vec::new())
        .unwrap();
    let id = env
        .objc
        .alloc_static_object(&mut env.mem, cls, Payload::Int(7))
        .unwrap();
    // A permanent object is an immutable constant: its payload cannot be
    // replaced, and a mutating host implementation leaves it untouched.
    assert_eq!(
        env.objc.set_payload(id, Payload::Int(9)),
        Err(Error::WrongHostObject { object: id })
    );
    assert_eq!(env.objc.borrow_payload(id), Ok(&Payload::Int(7)));
}
