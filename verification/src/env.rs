//! The long-lived context that owns every process-wide registry: guest
//! memory, the object model, the dynamic linker's export tables and the
//! call bridge. It is created once at load time and passed explicitly to
//! every operation; there is no ambient global state.

use crate::bridge::Bridge;
use crate::dyld::{Dyld, HostConstant};
use crate::lookup::{assoc_find, assoc_unique, lemma_assoc_push_stable};
use crate::mem::Mem;
use crate::ns_string::State;
use crate::objc::{
    find_class, lemma_find_class_push_stable, selectors_unique, ClassDef, ObjC, ObjEntry, Payload,
};
use vstd::prelude::*;

verus! {

/// Every interned static string is backed by a live object: a permanent
/// instance of the static string class, with count one, whose payload is
/// exactly the interned text. With the pool's names unique, this also
/// makes distinct texts intern to distinct objects.
pub open spec fn pool_backed(
    pool: Seq<(String, u32)>,
    m: Map<u32, ObjEntry>,
    classes: Seq<ClassDef>,
) -> bool {
    forall|i: int|
        #![trigger pool[i]]
        0 <= i < pool.len() ==> {
            &&& m.contains_key(pool[i].1)
            &&& m[pool[i].1].permanent
            &&& m[pool[i].1].refcount == 1
            &&& (m[pool[i].1].payload matches Payload::Text(t) && t@ == pool[i].0@)
            &&& Some(m[pool[i].1].class as int) == find_class(classes, "_HostNSString_Static"@)
        }
}

/// Every memoized constant is backed by a live object: a permanent
/// instance whose payload is exactly the text the constant table binds
/// the symbol to, so a memoization hit always yields that constant.
pub open spec fn memo_backed(
    constants: Seq<(String, HostConstant)>,
    memo: Seq<(String, u32)>,
    m: Map<u32, ObjEntry>,
) -> bool {
    forall|i: int|
        #![trigger memo[i]]
        0 <= i < memo.len() ==> {
            &&& m.contains_key(memo[i].1)
            &&& m[memo[i].1].permanent
            &&& (assoc_find(constants, memo[i].0@) matches Some(
                HostConstant::NSString(s),
            ) && (m[memo[i].1].payload matches Payload::Text(t) && t@ == s@))
        }
}

/// Growing the constant table (at load time) never unsettles a memoized
/// constant: lookups of already-memoized symbols keep their first match.
pub proof fn lemma_memo_backed_grow(
    constants: Seq<(String, HostConstant)>,
    pushed: (String, HostConstant),
    memo: Seq<(String, u32)>,
    m: Map<u32, ObjEntry>,
)
    requires
        memo_backed(constants, memo, m),
    ensures
        memo_backed(constants.push(pushed), memo, m),
{
    assert forall|i: int| #![trigger memo[i]] 0 <= i < memo.len() implies {
        &&& m.contains_key(memo[i].1)
        &&& m[memo[i].1].permanent
        &&& (assoc_find(constants.push(pushed), memo[i].0@) matches Some(
            HostConstant::NSString(s),
        ) && (m[memo[i].1].payload matches Payload::Text(t) && t@ == s@))
    } by {
        lemma_assoc_push_stable(constants, memo[i].0@, pushed, 0);
    }
}

/// The whole substrate's state, owned by one context object.
pub struct Environment {
    pub mem: Mem,
    pub objc: ObjC,
    pub dyld: Dyld,
    pub bridge: Bridge,
    pub ns_string: State,
}

impl Environment {
    /// The whole context is consistent: the arena and object model are
    /// well-formed, every object id lies below the allocation mark, the
    /// host string classes exist, every memoization table is keyed
    /// uniquely, and every interned string and memoized constant is
    /// backed by a live permanent object carrying its text.
    pub open spec fn wf(&self) -> bool {
        &&& self.mem.wf()
        &&& self.objc.wf()
        &&& self.objc.ids_below(self.mem.mark())
        &&& find_class(self.objc.classes(), "_HostNSString"@) is Some
        &&& find_class(self.objc.classes(), "_HostNSString_Static"@) is Some
        &&& assoc_unique(self.ns_string.pool())
        &&& assoc_unique(self.dyld.memo())
        &&& selectors_unique(self.dyld.stubbed())
        &&& pool_backed(self.ns_string.pool(), self.objc.objects(), self.objc.classes())
        &&& memo_backed(self.dyld.constants(), self.dyld.memo(), self.objc.objects())
    }

    /// A fresh context: a zeroed guest arena of `arena_size` bytes (fixed
    /// for the process's lifetime), the built-in string classes
    /// registered, empty export tables in the given resolution mode, and
    /// no calls in flight.
    pub fn new(arena_size: usize, strict: bool) -> (env: Environment)
        requires
            arena_size <= 0xFFFF_FFFF,
        ensures
            env.wf(),
            env.mem@.len() == arena_size,
            env.objc.objects() =~= Map::<u32, crate::objc::ObjEntry>::empty(),
            env.objc.pools() =~= Seq::<Seq<u32>>::empty(),
            env.objc.destroyed() =~= Seq::<u32>::empty(),
            env.dyld.functions() =~= Seq::<(String, crate::dyld::FnDesc)>::empty(),
            env.dyld.constants() =~= Seq::<(String, crate::dyld::HostConstant)>::empty(),
            env.dyld.memo() =~= Seq::<(String, u32)>::empty(),
            env.dyld.stubbed() =~= Seq::<String>::empty(),
            env.dyld.strict() == strict,
            env.bridge.frames() =~= Seq::<crate::bridge::Frame>::empty(),
            env.ns_string.pool() =~= Seq::<(String, u32)>::empty(),
    {
        let mem = Mem::new(arena_size);
        let mut objc = ObjC::new();
        proof {
            reveal_strlit("NSObject");
            reveal_strlit("NSString");
            reveal_strlit("_HostNSString");
            reveal_strlit("_HostNSString_Static");
            assert("NSObject"@.len() == 8);
            assert("NSString"@.len() == 8);
            assert("_HostNSString"@.len() == 13);
            assert("_HostNSString_Static"@.len() == 20);
            assert("NSObject"@[2] != "NSString"@[2]);
        }
        let r1 = objc.register_class("NSObject", Option::None, true, Vec::new());
        assert(r1 is Ok);
        let ghost cs1 = objc.classes();
        let r2 = objc.register_class("NSString", Option::Some("NSObject"), true, Vec::new());
        assert(r2 is Ok) by {
            assert(crate::objc::find_class_from(cs1, "NSString"@, 1) is None);
            assert(crate::objc::find_class_from(cs1, "NSString"@, 0) is None);
        }
        let ghost cs2 = objc.classes();
        let r3 = objc.register_class("_HostNSString", Option::Some("NSString"), true, Vec::new());
        assert(r3 is Ok) by {
            assert(crate::objc::find_class_from(cs2, "_HostNSString"@, 2) is None);
            assert(crate::objc::find_class_from(cs2, "_HostNSString"@, 1) is None);
            assert(crate::objc::find_class_from(cs2, "_HostNSString"@, 0) is None);
        }
        let ghost cs3 = objc.classes();
        let r4 = objc.register_class(
            "_HostNSString_Static",
            Option::Some("_HostNSString"),
            true,
            Vec::new(),
        );
        assert(r4 is Ok) by {
            assert(crate::objc::find_class_from(cs3, "_HostNSString_Static"@, 3) is None);
            assert(crate::objc::find_class_from(cs3, "_HostNSString_Static"@, 2) is None);
            assert(crate::objc::find_class_from(cs3, "_HostNSString_Static"@, 1) is None);
            assert(crate::objc::find_class_from(cs3, "_HostNSString_Static"@, 0) is None);
        }
        proof {
            lemma_find_class_push_stable(
                cs3,
                "_HostNSString"@,
                objc.classes()[cs3.len() as int],
                0,
            );
        }
        Environment {
            mem,
            objc,
            dyld: Dyld::new(strict),
            bridge: Bridge::new(),
            ns_string: State::new(),
        }
    }
}

} // verus!
