//! The string class cluster: host-visible string objects backed by a
//! UTF-8 host payload, with an interning pool for static-lifetime
//! strings.
//!
//! The concrete class `_HostNSString` carries a text payload; its
//! subclass `_HostNSString_Static` is for interned strings with static
//! lifetime, whose instances are permanent: they are never retained,
//! released or deallocated.

use crate::env::Environment;
use crate::error::Error;
use crate::lookup::{assoc_find, assoc_lookup, lemma_assoc_push, lemma_assoc_unique_push};
use crate::mem::align_up;
use crate::objc::{find_class, lemma_find_class_found, Payload};
use vstd::prelude::*;

verus! {

/// The string cluster's per-process state: the pool of interned
/// static-lifetime strings, keyed by their text.
pub struct State {
    static_str_pool: Vec<(String, u32)>,
}

impl State {
    /// The interning pool: text to the permanent object that carries it.
    pub closed spec fn pool(&self) -> Seq<(String, u32)> {
        self.static_str_pool@
    }

    /// An empty pool.
    pub fn new() -> (s: State)
        ensures
            s.pool() =~= Seq::<(String, u32)>::empty(),
    {
        State { static_str_pool: Vec::new() }
    }

    /// The string cluster's state inside a context.
    pub fn get(env: &Environment) -> (s: &State)
        ensures
            *s == env.ns_string,
    {
        &env.ns_string
    }
}

/// An interned string object for `from`: the pooled object if `from` was
/// interned before — the same identity on every call — and a fresh
/// permanent object, recorded in the pool, otherwise. The object never
/// has to be released and is never deallocated.
pub fn get_static_str(env: &mut Environment, from: &str) -> (r: Result<u32, Error>)
    requires
        old(env).wf(),
    ensures
        final(env).wf(),
        final(env).objc.classes() == old(env).objc.classes(),
        final(env).objc.selectors() == old(env).objc.selectors(),
        final(env).objc.pools() == old(env).objc.pools(),
        final(env).objc.destroyed() == old(env).objc.destroyed(),
        final(env).mem@ == old(env).mem@,
        final(env).dyld == old(env).dyld,
        final(env).bridge == old(env).bridge,
        match assoc_find(old(env).ns_string.pool(), from@) {
            Some(id) => {
                &&& r == Ok::<u32, Error>(id)
                &&& final(env).ns_string.pool() == old(env).ns_string.pool()
                &&& final(env).objc.objects() == old(env).objc.objects()
                &&& final(env).mem.mark() == old(env).mem.mark()
                &&& final(env).objc.objects().contains_key(id)
                &&& final(env).objc.objects()[id].permanent
                &&& (final(env).objc.objects()[id].payload matches Payload::Text(t) && t@ == from@)
            },
            None => match r {
                Ok(id) => {
                    &&& id != 0
                    &&& !old(env).objc.objects().contains_key(id)
                    &&& final(env).objc.objects().contains_key(id)
                    &&& final(env).objc.objects() == old(env).objc.objects().insert(
                        id,
                        final(env).objc.objects()[id],
                    )
                    &&& final(env).objc.objects()[id].permanent
                    &&& final(env).objc.objects()[id].refcount == 1
                    &&& final(env).objc.objects()[id].payload matches Payload::Text(t) && t@
                        == from@
                    &&& Some(final(env).objc.objects()[id].class as int) == find_class(
                        old(env).objc.classes(),
                        "_HostNSString_Static"@,
                    )
                    &&& assoc_find(final(env).ns_string.pool(), from@) == Some(id)
                    &&& final(env).ns_string.pool().len() == old(env).ns_string.pool().len() + 1
                    &&& forall|i: int|
                        0 <= i < old(env).ns_string.pool().len() ==> final(env).ns_string.pool()[i]
                            == old(env).ns_string.pool()[i]
                },
                Err(e) => {
                    &&& e == Error::OutOfMemory
                    &&& align_up(old(env).mem.mark(), 4) + 4 > old(env).mem@.len()
                    &&& final(env).ns_string.pool() == old(env).ns_string.pool()
                    &&& final(env).objc.objects() == old(env).objc.objects()
                },
            },
        },
{
    let owned = from.to_owned();
    if let Option::Some(i) = assoc_lookup(&env.ns_string.static_str_pool, &owned) {
        let id = env.ns_string.static_str_pool[i].1;
        assert(env.ns_string.pool()[i as int].1 == id);
        return Ok(id);
    }
    let cls = match env.objc.lookup_class("_HostNSString_Static") {
        Option::Some(c) => c,
        Option::None => {
            // Unreachable: the context invariant keeps this class
            // registered.
            assert(false);
            return Err(Error::OutOfMemory);
        },
    };
    proof {
        lemma_find_class_found(env.objc.classes(), "_HostNSString_Static"@, 0, cls as int);
    }
    let key = owned.clone();
    let id = match env.objc.alloc_static_object(&mut env.mem, cls, Payload::Text(owned)) {
        Ok(id) => id,
        Err(_) => {
            return Err(Error::OutOfMemory);
        },
    };
    proof {
        lemma_assoc_push(env.ns_string.static_str_pool@, from@, (key, id), 0);
        lemma_assoc_unique_push(env.ns_string.static_str_pool@, (key, id));
    }
    env.ns_string.static_str_pool.push((key, id));
    Ok(id)
}

/// A fresh string object carrying `from`, with reference count 1: the
/// host-side shortcut for building a string instance directly.
pub fn from_rust_string(env: &mut Environment, from: String) -> (r: Result<u32, Error>)
    requires
        old(env).wf(),
    ensures
        final(env).wf(),
        final(env).objc.classes() == old(env).objc.classes(),
        final(env).objc.selectors() == old(env).objc.selectors(),
        final(env).objc.pools() == old(env).objc.pools(),
        final(env).objc.destroyed() == old(env).objc.destroyed(),
        final(env).mem@ == old(env).mem@,
        final(env).dyld == old(env).dyld,
        final(env).bridge == old(env).bridge,
        final(env).ns_string == old(env).ns_string,
        match r {
            Ok(id) => {
                &&& id != 0
                &&& !old(env).objc.objects().contains_key(id)
                &&& final(env).objc.objects().contains_key(id)
                &&& final(env).objc.objects() == old(env).objc.objects().insert(
                    id,
                    final(env).objc.objects()[id],
                )
                &&& !final(env).objc.objects()[id].permanent
                &&& final(env).objc.objects()[id].refcount == 1
                &&& final(env).objc.objects()[id].payload == Payload::Text(from)
                &&& Some(final(env).objc.objects()[id].class as int) == find_class(
                    old(env).objc.classes(),
                    "_HostNSString"@,
                )
            },
            Err(e) => {
                &&& e == Error::OutOfMemory
                &&& align_up(old(env).mem.mark(), 4) + 4 > old(env).mem@.len()
                &&& final(env).objc.objects() == old(env).objc.objects()
            },
        },
{
    let cls = match env.objc.lookup_class("_HostNSString") {
        Option::Some(c) => c,
        Option::None => {
            // Unreachable: the context invariant keeps this class
            // registered.
            assert(false);
            return Err(Error::OutOfMemory);
        },
    };
    proof {
        lemma_find_class_found(env.objc.classes(), "_HostNSString"@, 0, cls as int);
    }
    match env.objc.alloc_object(&mut env.mem, cls, Payload::Text(from)) {
        Ok(id) => Ok(id),
        Err(_) => Err(Error::OutOfMemory),
    }
}

/// The text a string object carries, as a host string. Fails on an id
/// that is not a live object, or one whose payload is not text.
pub fn to_rust_string(env: &Environment, string: u32) -> (r: Result<String, Error>)
    ensures
        match r {
            Ok(s) => {
                &&& env.objc.objects().contains_key(string)
                &&& env.objc.objects()[string].payload matches Payload::Text(t) && s@ == t@
            },
            Err(Error::WrongHostObject { object }) => {
                &&& object == string
                &&& env.objc.objects().contains_key(string)
                &&& !(env.objc.objects()[string].payload is Text)
            },
            Err(Error::RefcountViolation { object }) => {
                &&& object == string
                &&& !env.objc.objects().contains_key(string)
            },
            Err(_) => false,
        },
{
    match env.objc.borrow_payload(string) {
        Ok(p) => match p {
            Payload::Text(t) => Ok(t.clone()),
            _ => Err(Error::WrongHostObject { object: string }),
        },
        Err(_) => Err(Error::RefcountViolation { object: string }),
    }
}

} // verus!
