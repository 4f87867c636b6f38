use guestkit::env::Environment;
use guestkit::error::Error;
use guestkit::objc::{HostImpl, ImpKind, MethodEntry, Payload};
use guestkit::ui_nib::{load_nib_file, NibArchive};

fn fresh_env() -> Environment {
    Environment::new(1 << 16, true)
}

fn empty_archive() -> NibArchive {
    NibArchive {
        objects: Vec::new(),
        connections: Vec::new(),
        visible_windows: Vec::new(),
        top_level_objects: Vec::new(),
    }
}

#[test]
fn missing_archive_is_a_recoverable_failure() {
    let mut env = fresh_env();
    assert_eq!(load_nib_file(&mut env, None), Err(Error::MissingResource));
}

#[test]
fn empty_archive_loads_and_returns_no_top_level_objects() {
    let mut env = fresh_env();
    assert_eq!(load_nib_file(&mut env, Some(empty_archive())), Ok(Vec::new()));
}

#[test]
fn load_connects_every_connection_and_unhides_every_window() {
    let mut env = fresh_env();
    let sel_connect = env.objc.intern_selector("connect");
    let sel_hidden = env.objc.intern_selector("setHidden");
    // A connection counts how often it was wired up; a window records the
    // hidden flag it was last given.
    let conn_cls = env
        .objc
        .register_class(
            "OutletConnection",
            None,
            true,
            vec![MethodEntry { sel: sel_connect, imp: ImpKind::Host(HostImpl::IncInt) }],
        )
        .unwrap();
    let win_cls = env
        .objc
        .register_class(
            "Window",
            None,
            true,
            vec![MethodEntry { sel: sel_hidden, imp: ImpKind::Host(HostImpl::SetInt) }],
        )
        .unwrap();
    let c1 = env.objc.allocate(&mut env.mem, conn_cls).unwrap();
    let c2 = env.objc.allocate(&mut env.mem, conn_cls).unwrap();
    let w = env
        .objc
        .alloc_object(&mut env.mem, win_cls, Payload::Int(1))
        .unwrap();

    let archive = NibArchive {
        objects: vec![c1, c2, w],
        connections: vec![c1, c2],
        visible_windows: vec![w],
        top_level_objects: vec![w],
    };
    let top = load_nib_file(&mut env, Some(archive)).unwrap();
    assert_eq!(top, vec![w]);
    // Each connection received `connect` exactly once.
    assert_eq!(env.objc.borrow_payload(c1), Ok(&Payload::Int(1)));
    assert_eq!(env.objc.borrow_payload(c2), Ok(&Payload::Int(1)));
    // The window was sent `setHidden` with false (zero).
    assert_eq!(env.objc.borrow_payload(w), Ok(&Payload::Int(0)));
}

#[test]
fn load_fails_when_a_connection_needs_guest_code() {
    let mut env = fresh_env();
    let sel_connect = env.objc.intern_selector("connect");
    let cls = env
        .objc
        .register_class(
            "GuestConnection",
            None,
            true,
            vec![MethodEntry { sel: sel_connect, imp: ImpKind::Guest(0x7000) }],
        )
        .unwrap();
    let c = env.objc.allocate(&mut env.mem, cls).unwrap();
    let archive = NibArchive {
        connections: vec![c],
        ..empty_archive()
    };
    assert_eq!(
        load_nib_file(&mut env, Some(archive)),
        Err(Error::GuestCallRequired { target: 0x7000 })
    );
}

#[test]
fn load_fails_on_a_connection_without_an_implementation() {
    let mut env = fresh_env();
    let cls = env
        .objc
        .register_class("Mute", None, true, Vec::new())
        .unwrap();
    let c = env.objc.allocate(&mut env.mem, cls).unwrap();
    let archive = NibArchive {
        connections: vec![c],
        ..empty_archive()
    };
    // `connect` was never even interned here.
    assert_eq!(
        load_nib_file(&mut env, Some(archive)),
        Err(Error::UnimplementedSelector {
            receiver: c,
            selector: "connect".to_string()
        })
    );
}
