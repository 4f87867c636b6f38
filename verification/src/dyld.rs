//! The dynamic linker: turns every symbol a loaded binary imports into
//! something callable or readable.
//!
//! Two export tables are consulted in order: a function table (symbol name
//! to host function descriptor) and a constant table (symbol name to a
//! constant producer, invoked at most once and memoized, so that a
//! framework-exposed constant is one actual object in the object model).
//! An import present in neither table is a load failure in strict mode; in
//! permissive mode it binds to a zero-returning stub and is logged exactly
//! once per distinct missing symbol. Both tables are built at load time
//! and immutable afterwards; only the memoization cache and the stub log
//! grow.

use crate::env::Environment;
use crate::error::Error;
use crate::lookup::{
    assoc_find, assoc_lookup, lemma_assoc_present, lemma_assoc_push, lemma_assoc_push_stable,
    lemma_assoc_unique_push,
};
use crate::mem::align_up;
use crate::objc::{find_sel, lemma_find_class_found, Payload};
use vstd::prelude::*;

verus! {

/// A host-native function a guest import can bind to: a closed set of
/// primitive behaviours the call bridge interprets.
#[derive(Debug, Clone, Copy, PartialEq, Eq, Structural)]
pub enum HostFunc {
    /// Records the guest's uncaught-exception handler address; returns 0.
    SetUncaughtExceptionHandler,
    /// Does nothing and returns 0.
    Noop,
    /// Returns a fixed value, e.g. a sentinel for a synthetic callback.
    ReturnConst(u32),
}

/// A host function descriptor: fixed arity (arguments marshalled from the
/// guest's registers and stack by the call bridge) and the behaviour.
#[derive(Debug, Clone, Copy, PartialEq, Eq, Structural)]
pub struct FnDesc {
    pub arity: usize,
    pub func: HostFunc,
}

/// A constant producer: what to materialize, at most once, when the
/// symbol is first referenced.
#[derive(Debug, PartialEq, Eq)]
pub enum HostConstant {
    /// A string constant, materialized as a permanent string object.
    NSString(String),
}

/// What an import resolved to.
#[derive(Debug, Clone, Copy, PartialEq, Eq, Structural)]
pub enum Resolved {
    /// A host function, callable from guest code through the bridge.
    Func(FnDesc),
    /// A materialized constant: the object's id, the same on every
    /// reference.
    Const(u32),
    /// A permissive-mode stub for a missing symbol.
    Stub,
}

/// The export tables, memoization cache, mode, and stub log.
pub struct Dyld {
    functions: Vec<(String, FnDesc)>,
    constants: Vec<(String, HostConstant)>,
    memo: Vec<(String, u32)>,
    strict: bool,
    stubbed: Vec<String>,
}

impl Dyld {
    /// The function export table.
    pub closed spec fn functions(&self) -> Seq<(String, FnDesc)> {
        self.functions@
    }

    /// The constant export table.
    pub closed spec fn constants(&self) -> Seq<(String, HostConstant)> {
        self.constants@
    }

    /// The memoized constants: symbol name to the materialized object.
    pub closed spec fn memo(&self) -> Seq<(String, u32)> {
        self.memo@
    }

    /// Strict mode fails the load on a missing import; permissive mode
    /// stubs it.
    pub closed spec fn strict(&self) -> bool {
        self.strict
    }

    /// The distinct missing symbols logged so far, each exactly once.
    pub closed spec fn stubbed(&self) -> Seq<String> {
        self.stubbed@
    }

    /// How many distinct missing symbols have been logged.
    pub fn stub_log_len(&self) -> (n: usize)
        ensures
            n == self.stubbed().len(),
    {
        self.stubbed.len()
    }

    /// Empty export tables in the given resolution mode.
    pub fn new(strict: bool) -> (d: Dyld)
        ensures
            d.functions() =~= Seq::<(String, FnDesc)>::empty(),
            d.constants() =~= Seq::<(String, HostConstant)>::empty(),
            d.memo() =~= Seq::<(String, u32)>::empty(),
            d.stubbed() =~= Seq::<String>::empty(),
            d.strict() == strict,
    {
        Dyld {
            functions: Vec::new(),
            constants: Vec::new(),
            memo: Vec::new(),
            strict,
            stubbed: Vec::new(),
        }
    }

    /// Adds one function export while the tables are being built.
    pub fn add_function(&mut self, name: &str, desc: FnDesc)
        ensures
            final(self).functions().len() == old(self).functions().len() + 1,
            final(self).functions()[old(self).functions().len() as int].0@ == name@,
            final(self).functions()[old(self).functions().len() as int].1 == desc,
            forall|i: int|
                0 <= i < old(self).functions().len() ==> final(self).functions()[i] == old(
                    self,
                ).functions()[i],
            final(self).constants() == old(self).constants(),
            final(self).memo() == old(self).memo(),
            final(self).stubbed() == old(self).stubbed(),
            final(self).strict() == old(self).strict(),
    {
        self.functions.push((name.to_owned(), desc));
    }

    /// Adds one constant export while the tables are being built.
    pub fn add_constant(&mut self, name: &str, producer: HostConstant)
        ensures
            final(self).constants().len() == old(self).constants().len() + 1,
            final(self).constants()[old(self).constants().len() as int].0@ == name@,
            final(self).constants()[old(self).constants().len() as int].1 == producer,
            forall|i: int|
                0 <= i < old(self).constants().len() ==> final(self).constants()[i] == old(
                    self,
                ).constants()[i],
            final(self).functions() == old(self).functions(),
            final(self).memo() == old(self).memo(),
            final(self).stubbed() == old(self).stubbed(),
            final(self).strict() == old(self).strict(),
    {
        self.constants.push((name.to_owned(), producer));
    }
}

/// Resolves one imported symbol. The function table is consulted first,
/// then the constant table; a constant is materialized on first reference
/// and memoized, so every later reference yields the same object
/// identity. An import in neither table fails the load in strict mode;
/// in permissive mode it binds to a stub and is logged exactly once per
/// distinct missing symbol.
pub fn resolve_symbol(env: &mut Environment, name: &str) -> (r: Result<Resolved, Error>)
    requires
        old(env).wf(),
    ensures
        final(env).wf(),
        final(env).dyld.functions() == old(env).dyld.functions(),
        final(env).dyld.constants() == old(env).dyld.constants(),
        final(env).dyld.strict() == old(env).dyld.strict(),
        final(env).objc.classes() == old(env).objc.classes(),
        final(env).objc.selectors() == old(env).objc.selectors(),
        final(env).objc.pools() == old(env).objc.pools(),
        final(env).objc.destroyed() == old(env).objc.destroyed(),
        final(env).mem@ == old(env).mem@,
        final(env).bridge == old(env).bridge,
        final(env).ns_string == old(env).ns_string,
        match r {
            Ok(Resolved::Func(d)) => {
                &&& assoc_find(old(env).dyld.functions(), name@) == Some(d)
                &&& final(env).dyld.memo() == old(env).dyld.memo()
                &&& final(env).dyld.stubbed() == old(env).dyld.stubbed()
                &&& final(env).objc.objects() == old(env).objc.objects()
            },
            Ok(Resolved::Const(id)) => {
                &&& assoc_find(old(env).dyld.functions(), name@) is None
                &&& final(env).dyld.stubbed() == old(env).dyld.stubbed()
                &&& match assoc_find(old(env).dyld.memo(), name@) {
                    Some(m) => {
                        &&& id == m
                        &&& final(env).dyld.memo() == old(env).dyld.memo()
                        &&& final(env).objc.objects() == old(env).objc.objects()
                        &&& final(env).mem.mark() == old(env).mem.mark()
                        &&& final(env).objc.objects().contains_key(id)
                        &&& final(env).objc.objects()[id].permanent
                        &&& (assoc_find(old(env).dyld.constants(), name@) matches Some(
                            HostConstant::NSString(s),
                        ) && (final(env).objc.objects()[id].payload matches Payload::Text(t) && t@
                            == s@))
                    },
                    None => {
                        &&& assoc_find(old(env).dyld.constants(), name@) matches Some(p)
                            && p matches HostConstant::NSString(s) && {
                            &&& final(env).objc.objects().contains_key(id)
                            &&& final(env).objc.objects()[id].permanent
                            &&& final(env).objc.objects()[id].payload matches Payload::Text(t)
                                && t@ == s@
                            &&& !old(env).objc.objects().contains_key(id)
                            &&& final(env).objc.objects() == old(env).objc.objects().insert(
                                id,
                                final(env).objc.objects()[id],
                            )
                        }
                        &&& id != 0
                        &&& assoc_find(final(env).dyld.memo(), name@) == Some(id)
                        &&& final(env).dyld.memo().len() == old(env).dyld.memo().len() + 1
                        &&& forall|i: int|
                            0 <= i < old(env).dyld.memo().len() ==> final(env).dyld.memo()[i]
                                == old(env).dyld.memo()[i]
                    },
                }
            },
            Ok(Resolved::Stub) => {
                &&& !old(env).dyld.strict()
                &&& assoc_find(old(env).dyld.functions(), name@) is None
                &&& assoc_find(old(env).dyld.memo(), name@) is None
                &&& assoc_find(old(env).dyld.constants(), name@) is None
                &&& final(env).dyld.memo() == old(env).dyld.memo()
                &&& final(env).objc.objects() == old(env).objc.objects()
                &&& match find_sel(old(env).dyld.stubbed(), name@) {
                    Some(i) => final(env).dyld.stubbed() == old(env).dyld.stubbed(),
                    None => {
                        &&& final(env).dyld.stubbed().len() == old(env).dyld.stubbed().len() + 1
                        &&& final(env).dyld.stubbed()[old(env).dyld.stubbed().len() as int]@
                            == name@
                        &&& forall|i: int|
                            0 <= i < old(env).dyld.stubbed().len() ==> final(env).dyld.stubbed()[i]
                                == old(env).dyld.stubbed()[i]
                    },
                }
            },
            Err(Error::OutOfMemory) => {
                &&& assoc_find(old(env).dyld.functions(), name@) is None
                &&& assoc_find(old(env).dyld.memo(), name@) is None
                &&& assoc_find(old(env).dyld.constants(), name@) is Some
                &&& align_up(old(env).mem.mark(), 4) + 4 > old(env).mem@.len()
                &&& final(env).mem.mark() == old(env).mem.mark()
                &&& final(env).dyld.memo() == old(env).dyld.memo()
                &&& final(env).dyld.stubbed() == old(env).dyld.stubbed()
                &&& final(env).objc.objects() == old(env).objc.objects()
            },
            Err(e) => {
                &&& old(env).dyld.strict()
                &&& e matches Error::UnresolvedSymbol { symbol } && symbol@ == name@
                &&& assoc_find(old(env).dyld.functions(), name@) is None
                &&& assoc_find(old(env).dyld.memo(), name@) is None
                &&& assoc_find(old(env).dyld.constants(), name@) is None
                &&& final(env).dyld.memo() == old(env).dyld.memo()
                &&& final(env).dyld.stubbed() == old(env).dyld.stubbed()
                &&& final(env).objc.objects() == old(env).objc.objects()
            },
        },
{
    let owned = name.to_owned();
    if let Option::Some(i) = assoc_lookup(&env.dyld.functions, &owned) {
        let d = env.dyld.functions[i].1;
        return Ok(Resolved::Func(d));
    }
    if let Option::Some(i) = assoc_lookup(&env.dyld.memo, &owned) {
        let id = env.dyld.memo[i].1;
        assert(env.dyld.memo()[i as int].1 == id);
        return Ok(Resolved::Const(id));
    }
    if let Option::Some(i) = assoc_lookup(&env.dyld.constants, &owned) {
        let id = match &env.dyld.constants[i].1 {
            HostConstant::NSString(s) => {
                let text = s.clone();
                let cls = match env.objc.lookup_class("_HostNSString_Static") {
                    Option::Some(c) => c,
                    Option::None => {
                        // Unreachable: the context invariant keeps the
                        // static string class registered.
                        assert(false);
                        return Err(Error::OutOfMemory);
                    },
                };
                proof {
                    lemma_find_class_found(
                        env.objc.classes(),
                        "_HostNSString_Static"@,
                        0,
                        cls as int,
                    );
                }
                match env.objc.alloc_static_object(&mut env.mem, cls, Payload::Text(text)) {
                    Ok(id) => id,
                    Err(e) => {
                        return Err(Error::OutOfMemory);
                    },
                }
            },
        };
        proof {
            lemma_assoc_push(env.dyld.memo@, name@, (owned, id), 0);
            lemma_assoc_unique_push(env.dyld.memo@, (owned, id));
        }
        env.dyld.memo.push((owned, id));
        return Ok(Resolved::Const(id));
    }
    if env.dyld.strict {
        return Err(Error::UnresolvedSymbol { symbol: owned });
    }
    match crate::lookup::find_name(&env.dyld.stubbed, &owned) {
        Option::Some(_) => Ok(Resolved::Stub),
        Option::None => {
            proof {
                crate::objc::lemma_find_sel_none(env.dyld.stubbed@, name@, 0);
                assert forall|i: int, j: int|
                    0 <= i < j < env.dyld.stubbed@.push(owned).len() implies env.dyld.stubbed@.push(
                    owned,
                )[i]@ != env.dyld.stubbed@.push(owned)[j]@ by {
                    if j < env.dyld.stubbed@.len() {
                        assert(env.dyld.stubbed@[i]@ != env.dyld.stubbed@[j]@);
                    } else {
                        assert(env.dyld.stubbed@[i]@ != name@);
                    }
                }
            }
            env.dyld.stubbed.push(owned);
            Ok(Resolved::Stub)
        },
    }
}


/// A constant symbol is accounted for: bound in the function table (which
/// shadows it), or already materialized and memoized.
pub open spec fn constant_settled(
    functions: Seq<(String, FnDesc)>,
    memo: Seq<(String, u32)>,
    name: Seq<char>,
) -> bool {
    assoc_find(functions, name) is Some || assoc_find(memo, name) is Some
}

/// Eager constant materialization, run at load time before any guest code
/// that might hold a cached pointer: afterwards every symbol of the
/// constant table is settled, so every later reference is a memoization
/// hit with a fixed object identity. (Symbols referenced only through
/// accessor imports may instead be resolved lazily, one by one.)
pub fn materialize_constants(env: &mut Environment) -> (r: Result<(), Error>)
    requires
        old(env).wf(),
    ensures
        final(env).wf(),
        final(env).dyld.functions() == old(env).dyld.functions(),
        final(env).dyld.constants() == old(env).dyld.constants(),
        final(env).dyld.strict() == old(env).dyld.strict(),
        final(env).dyld.stubbed() == old(env).dyld.stubbed(),
        final(env).objc.classes() == old(env).objc.classes(),
        final(env).objc.selectors() == old(env).objc.selectors(),
        final(env).objc.pools() == old(env).objc.pools(),
        final(env).objc.destroyed() == old(env).objc.destroyed(),
        final(env).mem@ == old(env).mem@,
        final(env).bridge == old(env).bridge,
        final(env).ns_string == old(env).ns_string,
        match r {
            Ok(()) => forall|j: int|
                0 <= j < old(env).dyld.constants().len() ==> constant_settled(
                    old(env).dyld.functions(),
                    final(env).dyld.memo(),
                    #[trigger] old(env).dyld.constants()[j].0@,
                ),
            Err(e) => e == Error::OutOfMemory && align_up(final(env).mem.mark(), 4) + 4
                > final(env).mem@.len(),
        },
{
    let n = env.dyld.constants.len();
    let mut i: usize = 0;
    while i < n
        invariant
            i <= n,
            env.wf(),
            n == env.dyld.constants().len(),
            env.dyld.functions() == old(env).dyld.functions(),
            env.dyld.constants() == old(env).dyld.constants(),
            env.dyld.strict() == old(env).dyld.strict(),
            env.dyld.stubbed() == old(env).dyld.stubbed(),
            env.objc.classes() == old(env).objc.classes(),
            env.objc.selectors() == old(env).objc.selectors(),
            env.objc.pools() == old(env).objc.pools(),
            env.objc.destroyed() == old(env).objc.destroyed(),
            env.mem@ == old(env).mem@,
            env.bridge == old(env).bridge,
            env.ns_string == old(env).ns_string,
            forall|j: int|
                0 <= j < i ==> constant_settled(
                    old(env).dyld.functions(),
                    env.dyld.memo(),
                    #[trigger] old(env).dyld.constants()[j].0@,
                ),
        decreases n - i,
    {
        let name = env.dyld.constants[i].0.clone();
        let ghost memo_pre = env.dyld.memo();
        proof {
            lemma_assoc_present(env.dyld.constants@, i as int, 0);
        }
        match resolve_symbol(env, name.as_str()) {
            Ok(_) => {},
            Err(e) => {
                return Err(Error::OutOfMemory);
            },
        }
        proof {
            if env.dyld.memo() != memo_pre {
                assert(env.dyld.memo() =~= memo_pre.push(
                    env.dyld.memo()[memo_pre.len() as int],
                ));
                assert forall|j: int|
                    0 <= j < i && assoc_find(memo_pre, old(env).dyld.constants()[j].0@)
                        is Some implies assoc_find(
                    env.dyld.memo(),
                    old(env).dyld.constants()[j].0@,
                ) is Some by {
                    lemma_assoc_push_stable(
                        memo_pre,
                        old(env).dyld.constants()[j].0@,
                        env.dyld.memo()[memo_pre.len() as int],
                        0,
                    );
                }
            }
        }
        i += 1;
    }
    Ok(())
}

} // verus!
