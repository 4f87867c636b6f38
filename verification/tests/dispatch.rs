use guestkit::env::Environment;
use guestkit::error::Error;
use guestkit::objc::{HostImpl, ImpKind, MethodEntry, SendOutcome};

fn fresh_env() -> Environment {
    Environment::new(1 << 16, true)
}

#[test]
fn dispatch_reaches_inherited_implementation() {
    let mut env = fresh_env();
    let sel = env.objc.intern_selector("ping");
    // A binds `ping` to Identity: the send returns the receiver's id.
    env.objc
        .register_class(
            "A",
            None,
            true,
            vec![MethodEntry { sel, imp: ImpKind::Host(HostImpl::Identity) }],
        )
        .unwrap();
    // B: A does not override it.
    let b = env
        .objc
        .register_class("B", Some("A"), true, Vec::new())
        .unwrap();
    let obj = env.objc.allocate(&mut env.mem, b).unwrap();
    let r = env.objc.send(obj, sel, &Vec::new()).unwrap();
    assert_eq!(r, SendOutcome::Done(obj));
}

#[test]
fn dispatch_prefers_the_override_and_super_reaches_the_base() {
    let mut env = fresh_env();
    let sel = env.objc.intern_selector("ping");
    env.objc
        .register_class(
            "A",
            None,
            true,
            vec![MethodEntry { sel, imp: ImpKind::Host(HostImpl::Identity) }],
        )
        .unwrap();
    // B overrides `ping` with Zero.
    let b = env
        .objc
        .register_class(
            "B",
            Some("A"),
            true,
            vec![MethodEntry { sel, imp: ImpKind::Host(HostImpl::Zero) }],
        )
        .unwrap();
    let obj = env.objc.allocate(&mut env.mem, b).unwrap();
    // The most-derived implementation wins...
    assert_eq!(env.objc.send(obj, sel, &Vec::new()).unwrap(), SendOutcome::Done(0));
    // ...and a superclass-directed send from B's static context reaches A's.
    assert_eq!(
        env.objc.send_super(obj, b, sel, &Vec::new()).unwrap(),
        SendOutcome::Done(obj)
    );
}

#[test]
fn unimplemented_selector_is_a_hard_failure() {
    let mut env = fresh_env();
    let sel = env.objc.intern_selector("absent");
    let cls = env
        .objc
        .register_class("Plain", None, true, Vec::new())
        .unwrap();
    let obj = env.objc.allocate(&mut env.mem, cls).unwrap();
    assert_eq!(
        env.objc.send(obj, sel, &Vec::new()),
        Err(Error::UnimplementedSelector {
            receiver: obj,
            selector: "absent".to_string()
        })
    );
}

#[test]
fn send_to_a_dead_or_unknown_id_fails() {
    let mut env = fresh_env();
    let sel = env.objc.intern_selector("ping");
    assert_eq!(
        env.objc.send(4096, sel, &Vec::new()),
        Err(Error::RefcountViolation { object: 4096 })
    );
}

#[test]
fn unresolved_superclass_is_reported() {
    let mut env = fresh_env();
    let sel = env.objc.intern_selector("ping");
    let cls = env
        .objc
        .register_class("Orphan", Some("NeverDefined"), true, Vec::new())
        .unwrap();
    let obj = env.objc.allocate(&mut env.mem, cls).unwrap();
    assert_eq!(
        env.objc.send(obj, sel, &Vec::new()),
        Err(Error::UnresolvedClass {
            name: "NeverDefined".to_string()
        })
    );
}

#[test]
fn superclass_cycle_is_reported() {
    let mut env = fresh_env();
    let sel = env.objc.intern_selector("ping");
    let x = env
        .objc
        .register_class("X", Some("Y"), true, Vec::new())
        .unwrap();
    env.objc
        .register_class("Y", Some("X"), true, Vec::new())
        .unwrap();
    let obj = env.objc.allocate(&mut env.mem, x).unwrap();
    assert_eq!(
        env.objc.send(obj, sel, &Vec::new()),
        Err(Error::ClassCycle { class: x })
    );
}

#[test]
fn guest_implementation_is_handed_to_the_bridge() {
    let mut env = fresh_env();
    let sel = env.objc.intern_selector("onTick");
    let cls = env
        .objc
        .register_class(
            "Callback",
            None,
            true,
            vec![MethodEntry { sel, imp: ImpKind::Guest(0x4000) }],
        )
        .unwrap();
    let obj = env.objc.allocate(&mut env.mem, cls).unwrap();
    let r = env.objc.send(obj, sel, &vec![7, 8]).unwrap();
    assert_eq!(
        r,
        SendOutcome::EnterGuest {
            target: 0x4000,
            args: vec![obj, 7, 8]
        }
    );
}

#[test]
fn counter_scenario_increments_to_three() {
    let mut env = fresh_env();
    let sel_inc = env.objc.intern_selector("increment");
    let sel_val = env.objc.intern_selector("value");
    let counter = env
        .objc
        .register_class(
            "Counter",
            None,
            true,
            vec![
                MethodEntry { sel: sel_inc, imp: ImpKind::Host(HostImpl::IncInt) },
                MethodEntry { sel: sel_val, imp: ImpKind::Host(HostImpl::GetInt) },
            ],
        )
        .unwrap();
    let obj = env.objc.allocate(&mut env.mem, counter).unwrap();
    env.objc.send(obj, sel_inc, &Vec::new()).unwrap();
    env.objc.send(obj, sel_inc, &Vec::new()).unwrap();
    env.objc.send(obj, sel_inc, &Vec::new()).unwrap();
    assert_eq!(
        env.objc.send(obj, sel_val, &Vec::new()).unwrap(),
        SendOutcome::Done(3)
    );
}

#[test]
fn increment_wraps_at_the_integer_ceiling() {
    let mut env = fresh_env();
    let sel_inc = env.objc.intern_selector("increment");
    let cls = env
        .objc
        .register_class(
            "WrapCounter",
            None,
            true,
            vec![MethodEntry { sel: sel_inc, imp: ImpKind::Host(HostImpl::IncInt) }],
        )
        .unwrap();
    let obj = env
        .objc
        .alloc_object(
            &mut env.mem,
            cls,
            guestkit::objc::Payload::Int(u32::MAX),
        )
        .unwrap();
    assert_eq!(
        env.objc.send(obj, sel_inc, &Vec::new()).unwrap(),
        SendOutcome::Done(0)
    );
}
