use guestkit::bridge::handle_import_call;
use guestkit::dyld::{resolve_symbol, FnDesc, HostConstant, HostFunc, Resolved};
use guestkit::env::Environment;
use guestkit::error::Error;
use guestkit::ns_exception;
use guestkit::ns_string::to_rust_string;

#[test]
fn constant_resolution_is_memoized_to_one_identity() {
    let mut env = Environment::new(1 << 16, true);
    ns_exception::install(&mut env);
    let first = resolve_symbol(&mut env, "_NSGenericException").unwrap();
    let second = resolve_symbol(&mut env, "_NSGenericException").unwrap();
    let id = match first {
        Resolved::Const(id) => id,
        other => panic!("expected a constant, got {:?}", other),
    };
    assert_eq!(second, Resolved::Const(id));
    // The materialized constant is the exception name itself.
    assert_eq!(to_rust_string(&env, id).unwrap(), "NSGenericException");
    // Distinct symbols materialize distinct objects.
    let other = resolve_symbol(&mut env, "_NSRangeException").unwrap();
    assert_ne!(other, Resolved::Const(id));
}

#[test]
fn function_resolution_finds_the_descriptor() {
    let mut env = Environment::new(1 << 16, true);
    ns_exception::install(&mut env);
    let r = resolve_symbol(&mut env, "_NSSetUncaughtExceptionHandler").unwrap();
    assert_eq!(
        r,
        Resolved::Func(FnDesc {
            arity: 1,
            func: HostFunc::SetUncaughtExceptionHandler
        })
    );
}

#[test]
fn strict_mode_fails_the_load_on_a_missing_import() {
    let mut env = Environment::new(1 << 16, true);
    assert_eq!(
        resolve_symbol(&mut env, "_NothingHere"),
        Err(Error::UnresolvedSymbol {
            symbol: "_NothingHere".to_string()
        })
    );
}

#[test]
fn permissive_mode_stubs_and_logs_each_missing_symbol_once() {
    let mut env = Environment::new(1 << 16, false);
    assert_eq!(resolve_symbol(&mut env, "_MissingA").unwrap(), Resolved::Stub);
    assert_eq!(env.dyld.stub_log_len(), 1);
    assert_eq!(resolve_symbol(&mut env, "_MissingA").unwrap(), Resolved::Stub);
    assert_eq!(env.dyld.stub_log_len(), 1);
    assert_eq!(resolve_symbol(&mut env, "_MissingB").unwrap(), Resolved::Stub);
    assert_eq!(env.dyld.stub_log_len(), 2);
}

#[test]
fn import_call_runs_the_bound_host_function() {
    let mut env = Environment::new(1 << 16, true);
    ns_exception::install(&mut env);
    // The handler installer deliberately ignores its address: the call
    // succeeds with a zero return and changes nothing.
    let live_before = env.objc.destroyed_log().len();
    let r = handle_import_call(&mut env, "_NSSetUncaughtExceptionHandler", &vec![0x1234]);
    assert_eq!(r, Ok(0));
    assert_eq!(env.objc.destroyed_log().len(), live_before);
    assert_eq!(env.dyld.stub_log_len(), 0);
}

#[test]
fn import_call_on_a_stub_returns_zero() {
    let mut env = Environment::new(1 << 16, false);
    assert_eq!(handle_import_call(&mut env, "_MissingC", &Vec::new()), Ok(0));
    assert_eq!(env.dyld.stub_log_len(), 1);
}

#[test]
fn import_call_on_a_constant_symbol_is_refused() {
    let mut env = Environment::new(1 << 16, true);
    env.dyld.add_constant(
        "_kGreeting",
        HostConstant::NSString("hello".to_string()),
    );
    let r = handle_import_call(&mut env, "_kGreeting", &Vec::new());
    assert!(matches!(r, Err(Error::WrongHostObject { .. })));
}

#[test]
fn exception_constant_table_is_complete() {
    let consts = ns_exception::constant_exports();
    assert_eq!(consts.len(), 66);
    assert!(consts.iter().any(|(sym, c)| {
        sym == "_NSInvalidArgumentException"
            && matches!(c, HostConstant::NSString(s) if s == "NSInvalidArgumentException")
    }));
}

#[test]
fn eager_materialization_settles_every_constant() {
    let mut env = Environment::new(1 << 16, true);
    ns_exception::install(&mut env);
    guestkit::dyld::materialize_constants(&mut env).unwrap();
    // Every later reference is a memoization hit with a fixed identity.
    let a = resolve_symbol(&mut env, "_NSRangeException").unwrap();
    let b = resolve_symbol(&mut env, "_NSRangeException").unwrap();
    assert_eq!(a, b);
    assert!(matches!(a, Resolved::Const(_)));
}
