use guestkit::env::Environment;
use guestkit::error::Error;
use guestkit::ns_string::{from_rust_string, get_static_str, to_rust_string, State};

fn fresh_env() -> Environment {
    Environment::new(1 << 16, true)
}

#[test]
fn static_strings_are_interned_to_one_identity() {
    let mut env = fresh_env();
    let a = get_static_str(&mut env, "hello").unwrap();
    let b = get_static_str(&mut env, "hello").unwrap();
    let c = get_static_str(&mut env, "world").unwrap();
    assert_eq!(a, b);
    assert_ne!(a, c);
    assert_eq!(to_rust_string(&env, a).unwrap(), "hello");
    assert_eq!(to_rust_string(&env, c).unwrap(), "world");
}

#[test]
fn static_strings_survive_release() {
    let mut env = fresh_env();
    let a = get_static_str(&mut env, "forever").unwrap();
    env.objc.release(a).unwrap();
    env.objc.release(a).unwrap();
    assert!(env.objc.is_live(a));
    assert_eq!(to_rust_string(&env, a).unwrap(), "forever");
}

#[test]
fn rust_string_roundtrip() {
    let mut env = fresh_env();
    let id = from_rust_string(&mut env, "guten Tag".to_string()).unwrap();
    assert_eq!(env.objc.refcount_of(id), Ok(1));
    assert_eq!(to_rust_string(&env, id).unwrap(), "guten Tag");
    // An ordinary string object is reference counted and dies on release.
    env.objc.release(id).unwrap();
    assert!(!env.objc.is_live(id));
}

#[test]
fn to_rust_string_rejects_non_string_objects() {
    let mut env = fresh_env();
    let cls = env
        .objc
        .register_class("Blob", None, true, Vec::new())
        .unwrap();
    let obj = env.objc.allocate(&mut env.mem, cls).unwrap();
    assert_eq!(
        to_rust_string(&env, obj),
        Err(Error::WrongHostObject { object: obj })
    );
    assert_eq!(
        to_rust_string(&env, 60000),
        Err(Error::RefcountViolation { object: 60000 })
    );
}

#[test]
fn state_is_reachable_from_the_context() {
    let env = fresh_env();
    let _state: &State = State::get(&env);
}

#[test]
fn repeat_interning_still_reads_back() {
    let mut env = fresh_env();
    let first = get_static_str(&mut env, "again").unwrap();
    let second = get_static_str(&mut env, "again").unwrap();
    assert_eq!(first, second);
    // The repeat hit is still a live permanent object with the text.
    env.objc.release(second).unwrap();
    assert_eq!(to_rust_string(&env, second).unwrap(), "again");
}
