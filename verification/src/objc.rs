//! The object model: class registry, instance side table, dynamic message
//! dispatch, reference counting and autorelease pools.
//!
//! Classes form a forest keyed by unique names; a superclass is referred to
//! by name and resolved lazily, so a loaded binary may mention a class
//! before it is registered. Objects are identified by a guest address and
//! live in a side table (never inside guest memory); every id in the table
//! has a nonzero reference count. Message dispatch walks the receiver's
//! class and then its superclass chain; the first match wins and no match
//! is a hard failure, never a silent no-op.

use crate::error::Error;
use crate::mem::{align_up, Mem};
use std::collections::HashMap;
use vstd::prelude::*;

verus! {

broadcast use vstd::std_specs::hash::group_hash_axioms;

/// The host-visible state attached to an object: decoded data the guest
/// address alone cannot carry.
#[derive(Debug, PartialEq, Eq)]
pub enum Payload {
    /// No host state.
    Empty,
    /// An integer cell, e.g. a counter.
    Int(u32),
    /// A decoded string backing store.
    Text(String),
}

/// A host-native method body: a closed set of primitive behaviours over
/// the receiver's payload and the call's arguments.
#[derive(Debug, Clone, Copy, PartialEq, Eq, Structural)]
pub enum HostImpl {
    /// Returns the payload's integer cell.
    GetInt,
    /// Increments the integer cell (wrapping) and returns the new value.
    IncInt,
    /// Stores the first argument into the integer cell and returns it.
    SetInt,
    /// Returns the receiver id.
    Identity,
    /// Returns zero.
    Zero,
}

/// A method implementation: host-native, or guest code at an address that
/// only the external execution engine can run.
#[derive(Debug, Clone, Copy, PartialEq, Eq, Structural)]
pub enum ImpKind {
    Host(HostImpl),
    Guest(u32),
}

/// One selector-to-implementation binding of a class.
#[derive(Debug, Clone, Copy, PartialEq, Eq, Structural)]
pub struct MethodEntry {
    pub sel: usize,
    pub imp: ImpKind,
}

/// A registered class: unique name, optional superclass (by name, resolved
/// lazily), its method table, and whether instances are host-defined.
pub struct ClassDef {
    pub name: String,
    pub superclass: Option<String>,
    pub methods: Vec<MethodEntry>,
    pub host_defined: bool,
}

/// A live object's side-table entry.
pub struct ObjEntry {
    pub class: usize,
    pub refcount: u32,
    pub permanent: bool,
    pub payload: Payload,
}

/// What dispatch resolution yields after walking a class chain.
#[derive(Debug, PartialEq, Eq)]
pub enum Resolution {
    /// The first implementation found on the chain.
    Found(ImpKind),
    /// No class on the chain binds the selector.
    NotFound,
    /// A superclass name on the chain never resolved to a class.
    UnknownClass(String),
    /// The chain does not terminate: the class forest has a cycle.
    Cycle,
}

/// What a message send produced.
#[derive(Debug, PartialEq, Eq)]
pub enum SendOutcome {
    /// A host-native implementation ran to completion with this result.
    Done(u32),
    /// The implementation is guest code: the caller must enter the guest
    /// at `target` with `args` (receiver first), via the call bridge.
    EnterGuest { target: u32, args: Vec<u32> },
}

/// The index of the first selector equal to `name`, searched from `i`.
pub open spec fn find_sel_from(selectors: Seq<String>, name: Seq<char>, i: int) -> Option<int>
    decreases selectors.len() - i,
{
    if i < 0 || i >= selectors.len() {
        None
    } else if selectors[i]@ == name {
        Some(i)
    } else {
        find_sel_from(selectors, name, i + 1)
    }
}

/// The index of the selector `name`, if interned.
pub open spec fn find_sel(selectors: Seq<String>, name: Seq<char>) -> Option<int> {
    find_sel_from(selectors, name, 0)
}

/// The index of the first class named `name`, searched from `i`.
pub open spec fn find_class_from(classes: Seq<ClassDef>, name: Seq<char>, i: int) -> Option<int>
    decreases classes.len() - i,
{
    if i < 0 || i >= classes.len() {
        None
    } else if classes[i].name@ == name {
        Some(i)
    } else {
        find_class_from(classes, name, i + 1)
    }
}

/// The index of the class named `name`, if registered.
pub open spec fn find_class(classes: Seq<ClassDef>, name: Seq<char>) -> Option<int> {
    find_class_from(classes, name, 0)
}

/// The first binding of `sel` in a method table, searched from `i`.
pub open spec fn find_method_from(methods: Seq<MethodEntry>, sel: usize, i: int) -> Option<ImpKind>
    decreases methods.len() - i,
{
    if i < 0 || i >= methods.len() {
        None
    } else if methods[i].sel == sel {
        Some(methods[i].imp)
    } else {
        find_method_from(methods, sel, i + 1)
    }
}

/// The implementation a single class binds to `sel`, if any.
pub open spec fn find_method(methods: Seq<MethodEntry>, sel: usize) -> Option<ImpKind> {
    find_method_from(methods, sel, 0)
}

/// Walks the superclass chain starting at class `c`: the class itself,
/// then each superclass in order; the first class that binds `sel` wins.
/// `fuel` bounds the walk so that a cyclic chain is reported rather than
/// looped on.
pub open spec fn spec_resolve(classes: Seq<ClassDef>, c: int, sel: usize, fuel: nat) -> Resolution
    decreases fuel,
{
    if fuel == 0 {
        Resolution::Cycle
    } else if c < 0 || c >= classes.len() {
        Resolution::NotFound
    } else {
        match find_method(classes[c].methods@, sel) {
            Some(imp) => Resolution::Found(imp),
            None => match classes[c].superclass {
                None => Resolution::NotFound,
                Some(sup) => match find_class(classes, sup@) {
                    None => Resolution::UnknownClass(sup),
                    Some(p) => spec_resolve(classes, p, sel, (fuel - 1) as nat),
                },
            },
        }
    }
}

/// Superclass-directed dispatch: resolution starts one level above the
/// static calling context's class `c`, not at the receiver's dynamic
/// class, which preserves virtual-dispatch semantics for overriding.
pub open spec fn spec_resolve_super(classes: Seq<ClassDef>, c: int, sel: usize, fuel: nat) -> Resolution {
    if c < 0 || c >= classes.len() {
        Resolution::NotFound
    } else {
        match classes[c].superclass {
            None => Resolution::NotFound,
            Some(sup) => match find_class(classes, sup@) {
                None => Resolution::UnknownClass(sup),
                Some(p) => spec_resolve(classes, p, sel, fuel),
            },
        }
    }
}

/// The fuel that suffices for any acyclic chain over `classes`.
pub open spec fn dispatch_fuel(classes: Seq<ClassDef>) -> nat {
    classes.len() + 1
}

/// The integer cell of a payload; a payload of another shape reads as 0.
pub open spec fn int_of(p: Payload) -> u32 {
    match p {
        Payload::Int(n) => n,
        _ => 0,
    }
}

/// Argument `i`, or 0 where fewer were passed: the guest ABI's argument
/// registers always exist, unpassed ones read as zero.
pub open spec fn arg_or_zero(args: Seq<u32>, i: int) -> u32 {
    if 0 <= i < args.len() {
        args[i]
    } else {
        0
    }
}

/// What a host-native implementation does: the receiver's new payload and
/// the returned value, as a function of the old payload and the arguments.
pub open spec fn spec_host_step(h: HostImpl, receiver: u32, p: Payload, args: Seq<u32>) -> (
    Payload,
    u32,
) {
    match h {
        HostImpl::GetInt => (p, int_of(p)),
        HostImpl::IncInt => {
            let n = if int_of(p) == 0xFFFF_FFFFu32 {
                0u32
            } else {
                (int_of(p) + 1) as u32
            };
            (Payload::Int(n), n)
        },
        HostImpl::SetInt => (Payload::Int(arg_or_zero(args, 0)), arg_or_zero(args, 0)),
        HostImpl::Identity => (p, receiver),
        HostImpl::Zero => (p, 0u32),
    }
}

/// No two registered classes share a name.
pub open spec fn class_names_unique(classes: Seq<ClassDef>) -> bool {
    forall|i: int, j: int|
        0 <= i < j < classes.len() ==> classes[i].name@ != classes[j].name@
}

/// No two interned selectors share a name.
pub open spec fn selectors_unique(selectors: Seq<String>) -> bool {
    forall|i: int, j: int| 0 <= i < j < selectors.len() ==> selectors[i]@ != selectors[j]@
}

/// Every method of every class binds an interned selector.
pub open spec fn methods_bound(classes: Seq<ClassDef>, n_sels: int) -> bool {
    forall|i: int, k: int|
        0 <= i < classes.len() && 0 <= k < classes[i].methods@.len()
            ==> #[trigger] classes[i].methods@[k].sel < n_sels
}

/// Every side-table entry is a non-null id of a registered class with a
/// nonzero reference count.
pub open spec fn objects_wf(m: Map<u32, ObjEntry>, n_classes: int) -> bool {
    forall|id: u32|
        #[trigger] m.contains_key(id) ==> id != 0 && m[id].class < n_classes && m[id].refcount >= 1
}

/// Inserting a good entry preserves side-table well-formedness.
pub proof fn lemma_objects_wf_insert(m: Map<u32, ObjEntry>, n_classes: int, id: u32, e: ObjEntry)
    requires
        objects_wf(m, n_classes),
        id != 0,
        e.class < n_classes,
        e.refcount >= 1,
    ensures
        objects_wf(m.insert(id, e), n_classes),
{
    assert forall|x: u32| #[trigger] m.insert(id, e).contains_key(x) implies x != 0 && m.insert(
        id,
        e,
    )[x].class < n_classes && m.insert(id, e)[x].refcount >= 1 by {
        if x != id {
            assert(m.contains_key(x));
        }
    }
}

/// Removing an entry preserves side-table well-formedness.
pub proof fn lemma_objects_wf_remove(m: Map<u32, ObjEntry>, n_classes: int, id: u32)
    requires
        objects_wf(m, n_classes),
    ensures
        objects_wf(m.remove(id), n_classes),
{
    assert forall|x: u32| #[trigger] m.remove(id).contains_key(x) implies x != 0 && m.remove(
        id,
    )[x].class < n_classes && m.remove(id)[x].refcount >= 1 by {
        assert(m.contains_key(x));
    }
}

/// The registry, side table, pools and destruction log of the object
/// model.
pub struct ObjC {
    classes: Vec<ClassDef>,
    selectors: Vec<String>,
    objects: HashMap<u32, ObjEntry>,
    pools: Vec<Vec<u32>>,
    destroyed: Vec<u32>,
}

impl ObjC {
    /// The registered classes, in registration order.
    pub closed spec fn classes(&self) -> Seq<ClassDef> {
        self.classes@
    }

    /// The interned selectors, in interning order.
    pub closed spec fn selectors(&self) -> Seq<String> {
        self.selectors@
    }

    /// The side table: every live object's entry, keyed by id.
    pub closed spec fn objects(&self) -> Map<u32, ObjEntry> {
        self.objects@
    }

    /// The autorelease pool stack, innermost pool last.
    pub closed spec fn pools(&self) -> Seq<Seq<u32>> {
        self.pools.deep_view()
    }

    /// The ids destroyed so far, in destruction order: the deallocation
    /// hook's record.
    pub closed spec fn destroyed(&self) -> Seq<u32> {
        self.destroyed@
    }

    /// Well-formedness: class names and selectors are unique, every method
    /// binds an interned selector, and every side-table entry is a live,
    /// non-null object of a registered class.
    pub open spec fn wf(&self) -> bool {
        &&& class_names_unique(self.classes())
        &&& selectors_unique(self.selectors())
        &&& methods_bound(self.classes(), self.selectors().len() as int)
        &&& objects_wf(self.objects(), self.classes().len() as int)
    }

    /// Every object id was carved out below the arena mark `mark`: what a
    /// fresh allocation can never collide with.
    pub open spec fn ids_below(&self, mark: int) -> bool {
        forall|id: u32| #[trigger] self.objects().contains_key(id) ==> id < mark
    }

    /// An empty object model: no classes, no selectors, no objects, no
    /// pools.
    pub fn new() -> (rt: ObjC)
        ensures
            rt.wf(),
            rt.classes() =~= Seq::<ClassDef>::empty(),
            rt.selectors() =~= Seq::<String>::empty(),
            rt.objects() =~= Map::<u32, ObjEntry>::empty(),
            rt.pools() =~= Seq::<Seq<u32>>::empty(),
            rt.destroyed() =~= Seq::<u32>::empty(),
    {
        ObjC {
            classes: Vec::new(),
            selectors: Vec::new(),
            objects: HashMap::new(),
            pools: Vec::new(),
            destroyed: Vec::new(),
        }
    }

    /// Interns a selector: the existing index if the name is already
    /// interned, a fresh one otherwise.
    #[verifier::loop_isolation(false)]
    pub fn intern_selector(&mut self, name: &str) -> (r: usize)
        requires
            old(self).wf(),
        ensures
            final(self).wf(),
            final(self).classes() == old(self).classes(),
            final(self).objects() == old(self).objects(),
            final(self).pools() == old(self).pools(),
            final(self).destroyed() == old(self).destroyed(),
            match find_sel(old(self).selectors(), name@) {
                Some(i) => r == i && final(self).selectors() == old(self).selectors(),
                None => {
                    &&& r == old(self).selectors().len()
                    &&& final(self).selectors().len() == old(self).selectors().len() + 1
                    &&& forall|i: int|
                        0 <= i < old(self).selectors().len() ==> final(self).selectors()[i] == old(
                            self,
                        ).selectors()[i]
                    &&& final(self).selectors()[r as int]@ == name@
                },
            },
            r < final(self).selectors().len(),
            find_sel(final(self).selectors(), name@) == Some(r as int),
    {
        let owned = name.to_owned();
        let n = self.selectors.len();
        let mut i: usize = 0;
        while i < n
            invariant
                i <= n,
                n == self.selectors@.len(),
                owned@ == name@,
                find_sel_from(self.selectors@, name@, 0) == find_sel_from(
                    self.selectors@,
                    name@,
                    i as int,
                ),
            decreases n - i,
        {
            if string_eq(&self.selectors[i], &owned) {
                proof {
                    lemma_find_sel_found(self.selectors@, name@, 0, i as int);
                }
                assert(self.wf());
                return i;
            }
            i += 1;
        }
        self.selectors.push(owned);
        assert(self.selectors@ =~= old(self).selectors@.push(self.selectors@[n as int]));
        proof {
            lemma_find_sel_none(old(self).selectors@, name@, 0);
            lemma_find_sel_push(old(self).selectors@, name@, self.selectors@[n as int]);
            assert forall|i: int, j: int|
                0 <= i < j < self.selectors@.len() implies self.selectors@[i]@
                != self.selectors@[j]@ by {
                if j < n as int {
                    assert(old(self).selectors()[i]@ != old(self).selectors()[j]@);
                } else {
                    assert(old(self).selectors()[i]@ != name@);
                }
            }
            assert(self.wf());
        }
        n
    }

    /// The index of an already-interned selector.
    pub fn lookup_selector(&self, name: &str) -> (r: Option<usize>)
        ensures
            match r {
                Some(i) => find_sel(self.selectors(), name@) == Some(i as int),
                None => find_sel(self.selectors(), name@) is None,
            },
    {
        let owned = name.to_owned();
        let n = self.selectors.len();
        let mut i: usize = 0;
        while i < n
            invariant
                i <= n,
                n == self.selectors@.len(),
                owned@ == name@,
                find_sel_from(self.selectors@, name@, 0) == find_sel_from(
                    self.selectors@,
                    name@,
                    i as int,
                ),
            decreases n - i,
        {
            if string_eq(&self.selectors[i], &owned) {
                return Some(i);
            }
            i += 1;
        }
        None
    }

    /// The index of a registered class, by name.
    pub fn lookup_class(&self, name: &str) -> (r: Option<usize>)
        ensures
            match r {
                Some(i) => find_class(self.classes(), name@) == Some(i as int),
                None => find_class(self.classes(), name@) is None,
            },
    {
        let owned = name.to_owned();
        let n = self.classes.len();
        let mut i: usize = 0;
        while i < n
            invariant
                i <= n,
                n == self.classes@.len(),
                owned@ == name@,
                find_class_from(self.classes@, name@, 0) == find_class_from(
                    self.classes@,
                    name@,
                    i as int,
                ),
            decreases n - i,
        {
            if string_eq(&self.classes[i].name, &owned) {
                return Some(i);
            }
            i += 1;
        }
        None
    }

    /// Registers a class with its full selector table. Registering a name
    /// again with an identical definition succeeds idempotently and
    /// returns the existing index; a conflicting definition fails. The
    /// superclass is recorded by name only and resolved lazily on use, so
    /// forward references are fine.
    pub fn register_class(
        &mut self,
        name: &str,
        superclass: Option<&str>,
        host_defined: bool,
        methods: Vec<MethodEntry>,
    ) -> (r: Result<usize, Error>)
        requires
            old(self).wf(),
            forall|k: int|
                0 <= k < methods@.len() ==> #[trigger] methods@[k].sel < old(
                    self,
                ).selectors().len(),
        ensures
            final(self).wf(),
            final(self).selectors() == old(self).selectors(),
            final(self).objects() == old(self).objects(),
            final(self).pools() == old(self).pools(),
            final(self).destroyed() == old(self).destroyed(),
            match r {
                Ok(c) => {
                    &&& find_class(final(self).classes(), name@) == Some(c as int)
                    &&& c < final(self).classes().len()
                    &&& final(self).classes()[c as int].name@ == name@
                    &&& final(self).classes()[c as int].methods@ == methods@
                    &&& final(self).classes()[c as int].host_defined == host_defined
                    &&& super_name_matches(final(self).classes()[c as int].superclass, superclass)
                    &&& match find_class(old(self).classes(), name@) {
                        Some(i) => c == i && final(self).classes() == old(self).classes(),
                        None => c == old(self).classes().len() && final(self).classes()
                            =~= old(self).classes().push(final(self).classes()[c as int]),
                    }
                },
                Err(e) => {
                    &&& final(self).classes() == old(self).classes()
                    &&& e matches Error::ClassConflict { name: n } && n@ == name@
                    &&& find_class(old(self).classes(), name@) is Some
                },
            },
    {
        let owned = name.to_owned();
        match self.find_class_exec(&owned) {
            Some(i) => {
                proof {
                    lemma_find_class_found(self.classes@, name@, 0, i as int);
                }
                let existing = &self.classes[i];
                let same_super = match (&existing.superclass, superclass) {
                    (Option::None, Option::None) => true,
                    (Option::Some(a), Option::Some(b)) => string_eq(a, &b.to_owned()),
                    _ => false,
                };
                let same_methods = method_tables_eq(&existing.methods, &methods);
                if same_super && existing.host_defined == host_defined && same_methods {
                    Ok(i)
                } else {
                    Err(Error::ClassConflict { name: owned })
                }
            },
            None => {
                let sup: Option<String> = match superclass {
                    Option::Some(s) => Option::Some(s.to_owned()),
                    Option::None => Option::None,
                };
                let c = self.classes.len();
                let def = ClassDef { name: owned, superclass: sup, methods, host_defined };
                self.classes.push(def);
                proof {
                    lemma_find_class_none(old(self).classes@, name@, 0);
                    lemma_find_class_push(old(self).classes@, name@, self.classes@[c as int]);
                    assert(self.selectors@ == old(self).selectors@);
                    assert forall|i: int, j: int|
                        0 <= i < j < self.selectors@.len() implies self.selectors@[i]@
                        != self.selectors@[j]@ by {
                        assert(old(self).selectors()[i]@ != old(self).selectors()[j]@);
                    }
                    assert forall|i: int, j: int|
                        0 <= i < j < self.classes@.len() implies self.classes@[i].name@
                        != self.classes@[j].name@ by {
                        if j < c as int {
                            assert(old(self).classes()[i].name@ != old(self).classes()[j].name@);
                        } else {
                            assert(old(self).classes()[i].name@ != name@);
                        }
                    }
                    assert(self.wf());
                }
                Ok(c)
            },
        }
    }

    /// `lookup_class` over an owned name, for internal reuse.
    fn find_class_exec(&self, name: &String) -> (r: Option<usize>)
        ensures
            match r {
                Some(i) => find_class(self.classes(), name@) == Some(i as int) && i
                    < self.classes().len(),
                None => find_class(self.classes(), name@) is None,
            },
    {
        let n = self.classes.len();
        let mut i: usize = 0;
        while i < n
            invariant
                i <= n,
                n == self.classes@.len(),
                find_class_from(self.classes@, name@, 0) == find_class_from(
                    self.classes@,
                    name@,
                    i as int,
                ),
            decreases n - i,
        {
            if string_eq(&self.classes[i].name, name) {
                return Some(i);
            }
            i += 1;
        }
        None
    }
}

/// A retain of `id` is legal: the object is live, and its count can grow
/// (a permanent object's count never moves).
pub open spec fn spec_retain_ok(m: Map<u32, ObjEntry>, id: u32) -> bool {
    &&& m.contains_key(id)
    &&& (m[id].permanent || m[id].refcount < 0xFFFF_FFFFu32)
}

/// The side table after a legal retain of `id`.
pub open spec fn spec_retain_map(m: Map<u32, ObjEntry>, id: u32) -> Map<u32, ObjEntry> {
    if m.contains_key(id) && !m[id].permanent {
        m.insert(
            id,
            ObjEntry {
                class: m[id].class,
                refcount: (m[id].refcount + 1) as u32,
                permanent: false,
                payload: m[id].payload,
            },
        )
    } else {
        m
    }
}

/// A release of `id` is legal exactly when the object is live: releasing
/// an absent id (a double free) is a violation, never a no-op.
pub open spec fn spec_release_ok(m: Map<u32, ObjEntry>, id: u32) -> bool {
    m.contains_key(id)
}

/// A legal release of `id` destroys the object exactly when it holds the
/// last reference.
pub open spec fn spec_release_destroys(m: Map<u32, ObjEntry>, id: u32) -> bool {
    &&& m.contains_key(id)
    &&& !m[id].permanent
    &&& m[id].refcount == 1
}

/// The side table after a legal release of `id`.
pub open spec fn spec_release_map(m: Map<u32, ObjEntry>, id: u32) -> Map<u32, ObjEntry> {
    if !m.contains_key(id) || m[id].permanent {
        m
    } else if m[id].refcount > 1 {
        m.insert(
            id,
            ObjEntry {
                class: m[id].class,
                refcount: (m[id].refcount - 1) as u32,
                permanent: false,
                payload: m[id].payload,
            },
        )
    } else {
        m.remove(id)
    }
}

/// The destruction log after a release of `id`.
pub open spec fn spec_release_log(m: Map<u32, ObjEntry>, d: Seq<u32>, id: u32) -> Seq<u32> {
    if spec_release_destroys(m, id) {
        d.push(id)
    } else {
        d
    }
}

/// Releasing every id of `ids` in order, or `None` as soon as one release
/// is a violation.
pub open spec fn spec_release_seq(m: Map<u32, ObjEntry>, d: Seq<u32>, ids: Seq<u32>) -> Option<
    (Map<u32, ObjEntry>, Seq<u32>),
>
    decreases ids.len(),
{
    if ids.len() == 0 {
        Some((m, d))
    } else if !spec_release_ok(m, ids[0]) {
        None
    } else {
        spec_release_seq(
            spec_release_map(m, ids[0]),
            spec_release_log(m, d, ids[0]),
            ids.drop_first(),
        )
    }
}

impl ObjC {
    /// Creates an object of `class`: a fresh non-null id carved out of
    /// guest memory, entered into the side table with reference count 1
    /// and the given payload. A `permanent` object ignores retain and
    /// release and is never deallocated.
    fn alloc_with(
        &mut self,
        mem: &mut Mem,
        class: usize,
        payload: Payload,
        permanent: bool,
    ) -> (r: Result<u32, Error>)
        requires
            old(self).wf(),
            old(mem).wf(),
            class < old(self).classes().len(),
            old(self).ids_below(old(mem).mark()),
        ensures
            final(self).wf(),
            final(mem).wf(),
            final(mem)@ == old(mem)@,
            old(mem).mark() <= final(mem).mark(),
            final(self).ids_below(final(mem).mark()),
            final(self).classes() == old(self).classes(),
            final(self).selectors() == old(self).selectors(),
            final(self).pools() == old(self).pools(),
            final(self).destroyed() == old(self).destroyed(),
            match r {
                Ok(a) => {
                    &&& a != 0
                    &&& !old(self).objects().contains_key(a)
                    &&& final(self).objects() == old(self).objects().insert(
                        a,
                        (ObjEntry { class, refcount: 1, permanent, payload }),
                    )
                },
                Err(e) => {
                    &&& e == Error::OutOfMemory
                    &&& align_up(old(mem).mark(), 4) + 4 > old(mem)@.len()
                    &&& final(self).objects() == old(self).objects()
                    &&& final(mem).mark() == old(mem).mark()
                },
            },
    {
        let a = match mem.allocate(4, 4) {
            Ok(a) => a,
            Err(_) => {
                return Err(Error::OutOfMemory);
            },
        };
        assert(!self.objects@.contains_key(a));
        self.objects.insert(a, ObjEntry { class, refcount: 1, permanent, payload });
        proof {
            lemma_objects_wf_insert(
                old(self).objects(),
                old(self).classes().len() as int,
                a,
                self.objects()[a],
            );
        }
        Ok(a)
    }

    /// `allocate(class)`: a fresh instance with reference count 1 and the
    /// class's default (empty) payload; any initialisation is a
    /// subsequent message.
    pub fn allocate(&mut self, mem: &mut Mem, class: usize) -> (r: Result<u32, Error>)
        requires
            old(self).wf(),
            old(mem).wf(),
            class < old(self).classes().len(),
            old(self).ids_below(old(mem).mark()),
        ensures
            final(self).wf(),
            final(mem).wf(),
            final(mem)@ == old(mem)@,
            old(mem).mark() <= final(mem).mark(),
            final(self).ids_below(final(mem).mark()),
            final(self).classes() == old(self).classes(),
            final(self).selectors() == old(self).selectors(),
            final(self).pools() == old(self).pools(),
            final(self).destroyed() == old(self).destroyed(),
            match r {
                Ok(a) => {
                    &&& a != 0
                    &&& !old(self).objects().contains_key(a)
                    &&& final(self).objects() == old(self).objects().insert(
                        a,
                        (ObjEntry {
                            class,
                            refcount: 1,
                            permanent: false,
                            payload: Payload::Empty,
                        }),
                    )
                },
                Err(e) => {
                    &&& e == Error::OutOfMemory
                    &&& align_up(old(mem).mark(), 4) + 4 > old(mem)@.len()
                    &&& final(self).objects() == old(self).objects()
                    &&& final(mem).mark() == old(mem).mark()
                },
            },
    {
        self.alloc_with(mem, class, Payload::Empty, false)
    }

    /// Creates an object with the given host payload, reference count 1.
    pub fn alloc_object(&mut self, mem: &mut Mem, class: usize, payload: Payload) -> (r: Result<
        u32,
        Error,
    >)
        requires
            old(self).wf(),
            old(mem).wf(),
            class < old(self).classes().len(),
            old(self).ids_below(old(mem).mark()),
        ensures
            final(self).wf(),
            final(mem).wf(),
            final(mem)@ == old(mem)@,
            old(mem).mark() <= final(mem).mark(),
            final(self).ids_below(final(mem).mark()),
            final(self).classes() == old(self).classes(),
            final(self).selectors() == old(self).selectors(),
            final(self).pools() == old(self).pools(),
            final(self).destroyed() == old(self).destroyed(),
            match r {
                Ok(a) => {
                    &&& a != 0
                    &&& !old(self).objects().contains_key(a)
                    &&& final(self).objects() == old(self).objects().insert(
                        a,
                        (ObjEntry { class, refcount: 1, permanent: false, payload }),
                    )
                },
                Err(e) => {
                    &&& e == Error::OutOfMemory
                    &&& align_up(old(mem).mark(), 4) + 4 > old(mem)@.len()
                    &&& final(self).objects() == old(self).objects()
                    &&& final(mem).mark() == old(mem).mark()
                },
            },
    {
        self.alloc_with(mem, class, payload, false)
    }

    /// Creates a permanent (static-lifetime) object: it is never retained,
    /// released or deallocated.
    pub fn alloc_static_object(
        &mut self,
        mem: &mut Mem,
        class: usize,
        payload: Payload,
    ) -> (r: Result<u32, Error>)
        requires
            old(self).wf(),
            old(mem).wf(),
            class < old(self).classes().len(),
            old(self).ids_below(old(mem).mark()),
        ensures
            final(self).wf(),
            final(mem).wf(),
            final(mem)@ == old(mem)@,
            old(mem).mark() <= final(mem).mark(),
            final(self).ids_below(final(mem).mark()),
            final(self).classes() == old(self).classes(),
            final(self).selectors() == old(self).selectors(),
            final(self).pools() == old(self).pools(),
            final(self).destroyed() == old(self).destroyed(),
            match r {
                Ok(a) => {
                    &&& a != 0
                    &&& !old(self).objects().contains_key(a)
                    &&& final(self).objects() == old(self).objects().insert(
                        a,
                        (ObjEntry { class, refcount: 1, permanent: true, payload }),
                    )
                },
                Err(e) => {
                    &&& e == Error::OutOfMemory
                    &&& align_up(old(mem).mark(), 4) + 4 > old(mem)@.len()
                    &&& final(self).objects() == old(self).objects()
                    &&& final(mem).mark() == old(mem).mark()
                },
            },
    {
        self.alloc_with(mem, class, payload, true)
    }

    /// The destruction log: every id destroyed so far, oldest first.
    pub fn destroyed_log(&self) -> (r: &Vec<u32>)
        ensures
            r@ == self.destroyed(),
    {
        &self.destroyed
    }

    /// How many autorelease pools are open.
    pub fn pool_depth(&self) -> (d: usize)
        ensures
            d == self.pools().len(),
    {
        self.pools.len()
    }

    /// Whether `id` is a live object. Holding an id (a weak reference)
    /// never changes its reference count; this lookup is how such a
    /// reference is checked.
    pub fn is_live(&self, id: u32) -> (r: bool)
        ensures
            r == self.objects().contains_key(id),
    {
        self.objects.contains_key(&id)
    }

    /// The reference count of a live object.
    pub fn refcount_of(&self, id: u32) -> (r: Result<u32, Error>)
        ensures
            match r {
                Ok(n) => self.objects().contains_key(id) && n == self.objects()[id].refcount,
                Err(e) => !self.objects().contains_key(id) && e == (Error::RefcountViolation {
                    object: id,
                }),
            },
    {
        match self.objects.get(&id) {
            Option::Some(e) => Ok(e.refcount),
            Option::None => Err(Error::RefcountViolation { object: id }),
        }
    }

    /// The class of a live object.
    pub fn class_of(&self, id: u32) -> (r: Result<usize, Error>)
        ensures
            match r {
                Ok(c) => self.objects().contains_key(id) && c == self.objects()[id].class,
                Err(e) => !self.objects().contains_key(id) && e == (Error::RefcountViolation {
                    object: id,
                }),
            },
    {
        match self.objects.get(&id) {
            Option::Some(e) => Ok(e.class),
            Option::None => Err(Error::RefcountViolation { object: id }),
        }
    }

    /// A view of a live object's host payload.
    pub fn borrow_payload(&self, id: u32) -> (r: Result<&Payload, Error>)
        ensures
            match r {
                Ok(p) => self.objects().contains_key(id) && *p == self.objects()[id].payload,
                Err(e) => !self.objects().contains_key(id) && e == (Error::RefcountViolation {
                    object: id,
                }),
            },
    {
        match self.objects.get(&id) {
            Option::Some(e) => Ok(&e.payload),
            Option::None => Err(Error::RefcountViolation { object: id }),
        }
    }

    /// Replaces a live object's host payload, leaving its class, count and
    /// permanence alone. A permanent object is an immutable constant: its
    /// payload cannot be replaced.
    pub fn set_payload(&mut self, id: u32, payload: Payload) -> (r: Result<(), Error>)
        requires
            old(self).wf(),
        ensures
            final(self).wf(),
            final(self).classes() == old(self).classes(),
            final(self).selectors() == old(self).selectors(),
            final(self).pools() == old(self).pools(),
            final(self).destroyed() == old(self).destroyed(),
            match r {
                Ok(()) => {
                    &&& old(self).objects().contains_key(id)
                    &&& !old(self).objects()[id].permanent
                    &&& final(self).objects() == old(self).objects().insert(
                        id,
                        (ObjEntry {
                            class: old(self).objects()[id].class,
                            refcount: old(self).objects()[id].refcount,
                            permanent: false,
                            payload,
                        }),
                    )
                },
                Err(e) => {
                    &&& final(self).objects() == old(self).objects()
                    &&& old(self).objects().contains_key(id) ==> old(
                        self,
                    ).objects()[id].permanent && e == (Error::WrongHostObject { object: id })
                    &&& !old(self).objects().contains_key(id) ==> e == (Error::RefcountViolation {
                        object: id,
                    })
                },
            },
    {
        match self.objects.remove(&id) {
            Option::Some(e) => {
                if e.permanent {
                    self.objects.insert(id, e);
                    assert(self.objects@ =~= old(self).objects@);
                    return Err(Error::WrongHostObject { object: id });
                }
                self.objects.insert(
                    id,
                    ObjEntry { class: e.class, refcount: e.refcount, permanent: false, payload },
                );
                assert(self.objects@ =~= old(self).objects@.insert(
                    id,
                    (ObjEntry {
                        class: old(self).objects()[id].class,
                        refcount: old(self).objects()[id].refcount,
                        permanent: false,
                        payload,
                    }),
                ));
                proof {
                    lemma_objects_wf_insert(
                        old(self).objects(),
                        old(self).classes().len() as int,
                        id,
                        self.objects()[id],
                    );
                }
                Ok(())
            },
            Option::None => Err(Error::RefcountViolation { object: id }),
        }
    }

    /// Increments a live object's reference count. Retaining an id that is
    /// not live, or whose count cannot grow, is a hard failure.
    pub fn retain(&mut self, id: u32) -> (r: Result<(), Error>)
        requires
            old(self).wf(),
        ensures
            final(self).wf(),
            final(self).classes() == old(self).classes(),
            final(self).selectors() == old(self).selectors(),
            final(self).pools() == old(self).pools(),
            final(self).destroyed() == old(self).destroyed(),
            match r {
                Ok(()) => spec_retain_ok(old(self).objects(), id) && final(self).objects()
                    == spec_retain_map(old(self).objects(), id),
                Err(e) => {
                    &&& !spec_retain_ok(old(self).objects(), id)
                    &&& final(self).objects() == old(self).objects()
                    &&& e == (Error::RefcountViolation { object: id })
                },
            },
    {
        match self.objects.remove(&id) {
            Option::Some(e) => {
                if e.permanent {
                    self.objects.insert(id, e);
                    assert(self.objects@ =~= old(self).objects@);
                    Ok(())
                } else if e.refcount == 0xFFFF_FFFF {
                    self.objects.insert(id, e);
                    assert(self.objects@ =~= old(self).objects@);
                    Err(Error::RefcountViolation { object: id })
                } else {
                    let rc = e.refcount + 1;
                    self.objects.insert(
                        id,
                        ObjEntry {
                            class: e.class,
                            refcount: rc,
                            permanent: false,
                            payload: e.payload,
                        },
                    );
                    assert(self.objects@ =~= spec_retain_map(old(self).objects(), id));
                    proof {
                        lemma_objects_wf_insert(
                            old(self).objects(),
                            old(self).classes().len() as int,
                            id,
                            self.objects()[id],
                        );
                    }
                    Ok(())
                }
            },
            Option::None => Err(Error::RefcountViolation { object: id }),
        }
    }

    /// Decrements a live object's reference count; on reaching zero the
    /// object is destroyed: its id is appended to the destruction log (the
    /// deallocation hook's record) and the side-table entry is removed.
    /// Releasing an id that is not live — a double free — is a hard
    /// failure, never silently ignored.
    pub fn release(&mut self, id: u32) -> (r: Result<(), Error>)
        requires
            old(self).wf(),
        ensures
            final(self).wf(),
            final(self).classes() == old(self).classes(),
            final(self).selectors() == old(self).selectors(),
            final(self).pools() == old(self).pools(),
            match r {
                Ok(()) => {
                    &&& spec_release_ok(old(self).objects(), id)
                    &&& final(self).objects() == spec_release_map(old(self).objects(), id)
                    &&& final(self).destroyed() == spec_release_log(
                        old(self).objects(),
                        old(self).destroyed(),
                        id,
                    )
                },
                Err(e) => {
                    &&& !spec_release_ok(old(self).objects(), id)
                    &&& final(self).objects() == old(self).objects()
                    &&& final(self).destroyed() == old(self).destroyed()
                    &&& e == (Error::RefcountViolation { object: id })
                },
            },
    {
        match self.objects.remove(&id) {
            Option::Some(e) => {
                if e.permanent {
                    self.objects.insert(id, e);
                    assert(self.objects@ =~= old(self).objects@);
                    Ok(())
                } else if e.refcount > 1 {
                    let rc = e.refcount - 1;
                    self.objects.insert(
                        id,
                        ObjEntry {
                            class: e.class,
                            refcount: rc,
                            permanent: false,
                            payload: e.payload,
                        },
                    );
                    assert(self.objects@ =~= spec_release_map(old(self).objects(), id));
                    proof {
                        lemma_objects_wf_insert(
                            old(self).objects(),
                            old(self).classes().len() as int,
                            id,
                            self.objects()[id],
                        );
                    }
                    Ok(())
                } else {
                    self.destroyed.push(id);
                    proof {
                        lemma_objects_wf_remove(
                            old(self).objects(),
                            old(self).classes().len() as int,
                            id,
                        );
                    }
                    Ok(())
                }
            },
            Option::None => Err(Error::RefcountViolation { object: id }),
        }
    }
}

/// The pool stack after opening a new (empty) innermost pool.
pub open spec fn spec_push_pool(pools: Seq<Seq<u32>>) -> Seq<Seq<u32>> {
    pools.push(Seq::empty())
}

/// The pool stack after autoreleasing `id` into the innermost pool.
pub open spec fn spec_autorelease(pools: Seq<Seq<u32>>, id: u32) -> Seq<Seq<u32>> {
    pools.update(pools.len() - 1, pools.last().push(id))
}

/// The pool stack after autoreleasing each id of `ids`, in order, into the
/// innermost pool.
pub open spec fn spec_autorelease_all(pools: Seq<Seq<u32>>, ids: Seq<u32>) -> Seq<Seq<u32>>
    decreases ids.len(),
{
    if ids.len() == 0 {
        pools
    } else {
        spec_autorelease_all(spec_autorelease(pools, ids[0]), ids.drop_first())
    }
}

impl ObjC {
    /// Opens a new autorelease pool scope: pools bracket a scope and nest
    /// arbitrarily.
    pub fn push_pool(&mut self)
        requires
            old(self).wf(),
        ensures
            final(self).wf(),
            final(self).classes() == old(self).classes(),
            final(self).selectors() == old(self).selectors(),
            final(self).objects() == old(self).objects(),
            final(self).destroyed() == old(self).destroyed(),
            final(self).pools() == spec_push_pool(old(self).pools()),
    {
        self.pools.push(Vec::new());
        assert(self.pools.deep_view() =~~= spec_push_pool(old(self).pools.deep_view()));
    }

    /// Adds `id` to the innermost pool, to be released when that pool is
    /// popped. Holding the id in the pool does not change its reference
    /// count. An autorelease with no open pool is a hard failure.
    pub fn autorelease(&mut self, id: u32) -> (r: Result<(), Error>)
        requires
            old(self).wf(),
        ensures
            final(self).wf(),
            final(self).classes() == old(self).classes(),
            final(self).selectors() == old(self).selectors(),
            final(self).objects() == old(self).objects(),
            final(self).destroyed() == old(self).destroyed(),
            match r {
                Ok(()) => old(self).pools().len() > 0 && final(self).pools() == spec_autorelease(
                    old(self).pools(),
                    id,
                ),
                Err(e) => old(self).pools().len() == 0 && final(self).pools() == old(self).pools()
                    && e == Error::PoolImbalance,
            },
    {
        match self.pools.pop() {
            Option::Some(mut p) => {
                p.push(id);
                self.pools.push(p);
                assert(self.pools.deep_view() =~~= spec_autorelease(
                    old(self).pools.deep_view(),
                    id,
                ));
                Ok(())
            },
            Option::None => Err(Error::PoolImbalance),
        }
    }

    /// Closes the innermost pool and releases every id it holds, in the
    /// order they were added, each exactly once; outer pools are left
    /// untouched. A pop without a matching push is a hard failure, as is
    /// any release violation while draining (the drain stops there).
    pub fn pop_pool(&mut self) -> (r: Result<(), Error>)
        requires
            old(self).wf(),
        ensures
            final(self).wf(),
            final(self).classes() == old(self).classes(),
            final(self).selectors() == old(self).selectors(),
            match r {
                Ok(()) => {
                    &&& old(self).pools().len() > 0
                    &&& final(self).pools() == old(self).pools().drop_last()
                    &&& spec_release_seq(
                        old(self).objects(),
                        old(self).destroyed(),
                        old(self).pools().last(),
                    ) == Some((final(self).objects(), final(self).destroyed()))
                },
                Err(e) => {
                    &&& old(self).pools().len() == 0 ==> {
                        &&& e == Error::PoolImbalance
                        &&& final(self).pools() == old(self).pools()
                        &&& final(self).objects() == old(self).objects()
                        &&& final(self).destroyed() == old(self).destroyed()
                    }
                    &&& old(self).pools().len() > 0 ==> {
                        &&& e matches Error::RefcountViolation { .. }
                        &&& final(self).pools() == old(self).pools().drop_last()
                        &&& spec_release_seq(
                            old(self).objects(),
                            old(self).destroyed(),
                            old(self).pools().last(),
                        ) is None
                    }
                },
            },
    {
        let ids = match self.pools.pop() {
            Option::Some(p) => p,
            Option::None => {
                assert(old(self).pools().len() == old(self).pools@.len());
                assert(self.pools() =~~= old(self).pools());
                return Err(Error::PoolImbalance);
            },
        };
        assert(old(self).pools().len() == old(self).pools@.len());
        assert(self.pools.deep_view() =~~= old(self).pools.deep_view().drop_last());
        assert(ids@ == old(self).pools().last());
        assert(ids@.skip(0) =~= ids@);
        let k = ids.len();
        let mut i: usize = 0;
        while i < k
            invariant
                i <= k,
                k == ids@.len(),
                old(self).pools().len() > 0,
                ids@ == old(self).pools().last(),
                self.wf(),
                self.classes() == old(self).classes(),
                self.selectors() == old(self).selectors(),
                self.pools() == old(self).pools().drop_last(),
                spec_release_seq(old(self).objects(), old(self).destroyed(), ids@)
                    == spec_release_seq(self.objects(), self.destroyed(), ids@.skip(i as int)),
            decreases k - i,
        {
            let ghost m_pre = self.objects();
            let ghost d_pre = self.destroyed();
            match self.release(ids[i]) {
                Ok(()) => {
                    proof {
                        assert(ids@.skip(i as int)[0] == ids@[i as int]);
                        assert(ids@.skip(i as int).drop_first() =~= ids@.skip(i as int + 1));
                        assert(spec_release_seq(m_pre, d_pre, ids@.skip(i as int))
                            == spec_release_seq(
                            self.objects(),
                            self.destroyed(),
                            ids@.skip(i as int + 1),
                        ));
                    }
                },
                Err(e) => {
                    proof {
                        assert(ids@.skip(i as int)[0] == ids@[i as int]);
                        assert(spec_release_seq(m_pre, d_pre, ids@.skip(i as int)) is None);
                    }
                    return Err(e);
                },
            }
            i += 1;
        }
        assert(ids@.skip(k as int) =~= Seq::<u32>::empty());
        Ok(())
    }
}

impl ObjC {
    /// Walks the superclass chain from `class` looking for `sel`, exactly
    /// as `spec_resolve` describes, with enough fuel for any acyclic
    /// chain.
    pub fn resolve_method(&self, class: usize, sel: usize) -> (r: Resolution)
        requires
            self.wf(),
            class < self.classes().len(),
        ensures
            r == spec_resolve(self.classes(), class as int, sel, dispatch_fuel(self.classes())),
    {
        let n = self.classes.len();
        let mut c = class;
        let mut steps: usize = 0;
        loop
            invariant
                self.wf(),
                n == self.classes().len(),
                c < n,
                steps <= n,
                spec_resolve(self.classes(), class as int, sel, dispatch_fuel(self.classes()))
                    == spec_resolve(self.classes(), c as int, sel, (n + 1 - steps) as nat),
            decreases n - steps,
        {
            match find_method_in(&self.classes[c].methods, sel) {
                Option::Some(imp) => {
                    return Resolution::Found(imp);
                },
                Option::None => {},
            }
            match &self.classes[c].superclass {
                Option::None => {
                    return Resolution::NotFound;
                },
                Option::Some(sup) => {
                    match self.find_class_exec(sup) {
                        Option::None => {
                            return Resolution::UnknownClass(sup.clone());
                        },
                        Option::Some(p) => {
                            if steps == n {
                                assert(spec_resolve(self.classes(), p as int, sel, 0)
                                    == Resolution::Cycle);
                                return Resolution::Cycle;
                            }
                            steps += 1;
                            c = p;
                        },
                    }
                },
            }
        }
    }

    /// Sends `sel` to `receiver` with `args`: looks the implementation up
    /// by walking the receiver's dynamic class and then its superclass
    /// chain. A host-native implementation runs to completion against the
    /// receiver's payload; a guest-defined one is handed back for the
    /// call bridge to run. No match is an `UnimplementedSelector` failure,
    /// and a receiver that is not a live object is a hard failure.
    pub fn send(&mut self, receiver: u32, sel: usize, args: &Vec<u32>) -> (r: Result<
        SendOutcome,
        Error,
    >)
        requires
            old(self).wf(),
            sel < old(self).selectors().len(),
        ensures
            final(self).wf(),
            final(self).classes() == old(self).classes(),
            final(self).selectors() == old(self).selectors(),
            final(self).pools() == old(self).pools(),
            final(self).destroyed() == old(self).destroyed(),
            send_post(
                old(self).classes(),
                old(self).selectors(),
                old(self).objects(),
                final(self).objects(),
                receiver,
                (if old(self).objects().contains_key(receiver) {
                    spec_resolve(
                        old(self).classes(),
                        old(self).objects()[receiver].class as int,
                        sel,
                        dispatch_fuel(old(self).classes()),
                    )
                } else {
                    Resolution::NotFound
                }),
                sel,
                args@,
                r,
            ),
    {
        let cls = match self.objects.get(&receiver) {
            Option::Some(e) => e.class,
            Option::None => {
                return Err(Error::RefcountViolation { object: receiver });
            },
        };
        let res = self.resolve_method(cls, sel);
        self.apply_resolution(receiver, res, sel, args)
    }

    /// A superclass-directed send: dispatch starts one level above the
    /// static calling context's class `static_class` (not the receiver's
    /// dynamic class), so an overriding implementation can reach the one
    /// it overrides.
    pub fn send_super(
        &mut self,
        receiver: u32,
        static_class: usize,
        sel: usize,
        args: &Vec<u32>,
    ) -> (r: Result<SendOutcome, Error>)
        requires
            old(self).wf(),
            static_class < old(self).classes().len(),
            sel < old(self).selectors().len(),
        ensures
            final(self).wf(),
            final(self).classes() == old(self).classes(),
            final(self).selectors() == old(self).selectors(),
            final(self).pools() == old(self).pools(),
            final(self).destroyed() == old(self).destroyed(),
            send_post(
                old(self).classes(),
                old(self).selectors(),
                old(self).objects(),
                final(self).objects(),
                receiver,
                spec_resolve_super(
                    old(self).classes(),
                    static_class as int,
                    sel,
                    dispatch_fuel(old(self).classes()),
                ),
                sel,
                args@,
                r,
            ),
    {
        if !self.objects.contains_key(&receiver) {
            return Err(Error::RefcountViolation { object: receiver });
        }
        let res = match &self.classes[static_class].superclass {
            Option::None => Resolution::NotFound,
            Option::Some(sup) => {
                match self.find_class_exec(sup) {
                    Option::None => Resolution::UnknownClass(sup.clone()),
                    Option::Some(p) => self.resolve_method(p, sel),
                }
            },
        };
        self.apply_resolution(receiver, res, sel, args)
    }

    /// Carries out a resolved implementation against a live receiver.
    fn apply_resolution(
        &mut self,
        receiver: u32,
        res: Resolution,
        sel: usize,
        args: &Vec<u32>,
    ) -> (r: Result<SendOutcome, Error>)
        requires
            old(self).wf(),
            sel < old(self).selectors().len(),
            old(self).objects().contains_key(receiver),
        ensures
            final(self).wf(),
            final(self).classes() == old(self).classes(),
            final(self).selectors() == old(self).selectors(),
            final(self).pools() == old(self).pools(),
            final(self).destroyed() == old(self).destroyed(),
            send_post(
                old(self).classes(),
                old(self).selectors(),
                old(self).objects(),
                final(self).objects(),
                receiver,
                res,
                sel,
                args@,
                r,
            ),
    {
        match res {
            Resolution::Found(ImpKind::Host(h)) => {
                let e = match self.objects.remove(&receiver) {
                    Option::Some(e) => e,
                    Option::None => {
                        // Unreachable: the caller guarantees a live
                        // receiver.
                        assert(false);
                        return Err(Error::RefcountViolation { object: receiver });
                    },
                };
                if e.permanent {
                    // A permanent object is an immutable constant: the
                    // implementation runs against its payload read-only.
                    let ret = host_result_exec(h, receiver, &e.payload, args);
                    self.objects.insert(receiver, e);
                    assert(self.objects@ =~= old(self).objects@.insert(
                        receiver,
                        (ObjEntry {
                            class: old(self).objects()[receiver].class,
                            refcount: old(self).objects()[receiver].refcount,
                            permanent: old(self).objects()[receiver].permanent,
                            payload: old(self).objects()[receiver].payload,
                        }),
                    ));
                    proof {
                        lemma_objects_wf_insert(
                            old(self).objects(),
                            old(self).classes().len() as int,
                            receiver,
                            self.objects()[receiver],
                        );
                    }
                    return Ok(SendOutcome::Done(ret));
                }
                let stepped = host_step_exec(h, receiver, e.payload, args);
                let ret = stepped.1;
                self.objects.insert(
                    receiver,
                    ObjEntry {
                        class: e.class,
                        refcount: e.refcount,
                        permanent: e.permanent,
                        payload: stepped.0,
                    },
                );
                assert(self.objects@ =~= old(self).objects@.insert(
                    receiver,
                    (ObjEntry {
                        class: old(self).objects()[receiver].class,
                        refcount: old(self).objects()[receiver].refcount,
                        permanent: old(self).objects()[receiver].permanent,
                        payload: spec_host_step(
                            h,
                            receiver,
                            old(self).objects()[receiver].payload,
                            args@,
                        ).0,
                    }),
                ));
                proof {
                    lemma_objects_wf_insert(
                        old(self).objects(),
                        old(self).classes().len() as int,
                        receiver,
                        self.objects()[receiver],
                    );
                }
                Ok(SendOutcome::Done(ret))
            },
            Resolution::Found(ImpKind::Guest(target)) => {
                let mut gargs: Vec<u32> = Vec::new();
                gargs.push(receiver);
                gargs.extend_from_slice(args.as_slice());
                assert(gargs@ =~= seq![receiver] + args@);
                Ok(SendOutcome::EnterGuest { target, args: gargs })
            },
            Resolution::NotFound => Err(
                Error::UnimplementedSelector { receiver, selector: self.selectors[sel].clone() },
            ),
            Resolution::UnknownClass(n) => Err(Error::UnresolvedClass { name: n }),
            Resolution::Cycle => {
                let cls = match self.objects.get(&receiver) {
                    Option::Some(e) => e.class,
                    Option::None => {
                        // Unreachable: the caller guarantees a live
                        // receiver.
                        assert(false);
                        return Err(Error::RefcountViolation { object: receiver });
                    },
                };
                Err(Error::ClassCycle { class: cls })
            },
        }
    }
}

/// What a completed dispatch promises, given the resolution that the
/// receiver's chain (or the static super chain) produced: a host
/// implementation stepped the receiver's payload and returned its value; a
/// guest implementation was handed back untouched; every failure names
/// what went wrong, and only a host step ever changes the side table.
pub open spec fn send_post(
    classes: Seq<ClassDef>,
    selectors: Seq<String>,
    m0: Map<u32, ObjEntry>,
    m1: Map<u32, ObjEntry>,
    receiver: u32,
    res: Resolution,
    sel: usize,
    args: Seq<u32>,
    r: Result<SendOutcome, Error>,
) -> bool {
    match r {
        Ok(SendOutcome::Done(v)) => {
            &&& m0.contains_key(receiver)
            &&& res matches Resolution::Found(ImpKind::Host(h)) && {
                let e = m0[receiver];
                let stepped = spec_host_step(h, receiver, e.payload, args);
                &&& v == stepped.1
                &&& m1 == m0.insert(
                    receiver,
                    (ObjEntry {
                        class: e.class,
                        refcount: e.refcount,
                        permanent: e.permanent,
                        payload: (if e.permanent {
                            e.payload
                        } else {
                            stepped.0
                        }),
                    }),
                )
            }
        },
        Ok(SendOutcome::EnterGuest { target, args: gargs }) => {
            &&& m0.contains_key(receiver)
            &&& res == Resolution::Found(ImpKind::Guest(target))
            &&& m1 == m0
            &&& gargs@ == seq![receiver] + args
        },
        Err(e) => {
            &&& m1 == m0
            &&& match e {
                Error::RefcountViolation { object } => object == receiver && !m0.contains_key(
                    receiver,
                ),
                Error::UnimplementedSelector { receiver: r2, selector } => r2 == receiver
                    && m0.contains_key(receiver) && res is NotFound && selector@
                    == selectors[sel as int]@,
                Error::UnresolvedClass { name } => m0.contains_key(receiver) && (
                res matches Resolution::UnknownClass(n) && name@ == n@),
                Error::ClassCycle { class } => m0.contains_key(receiver) && res is Cycle && class
                    == m0[receiver].class,
                _ => false,
            }
        },
    }
}

/// `find_method`, executably.
fn find_method_in(methods: &Vec<MethodEntry>, sel: usize) -> (r: Option<ImpKind>)
    ensures
        r == find_method(methods@, sel),
{
    let n = methods.len();
    let mut i: usize = 0;
    while i < n
        invariant
            i <= n,
            n == methods@.len(),
            find_method_from(methods@, sel, 0) == find_method_from(methods@, sel, i as int),
        decreases n - i,
    {
        if methods[i].sel == sel {
            return Some(methods[i].imp);
        }
        i += 1;
    }
    None
}

/// `spec_host_step`, executably.
fn host_step_exec(h: HostImpl, receiver: u32, p: Payload, args: &Vec<u32>) -> (r: (Payload, u32))
    ensures
        r == spec_host_step(h, receiver, p, args@),
{
    match h {
        HostImpl::GetInt => {
            let n = int_of_exec(&p);
            (p, n)
        },
        HostImpl::IncInt => {
            let n0 = int_of_exec(&p);
            let n = if n0 == 0xFFFF_FFFF {
                0
            } else {
                n0 + 1
            };
            (Payload::Int(n), n)
        },
        HostImpl::SetInt => {
            let a = if args.len() > 0 {
                args[0]
            } else {
                0
            };
            (Payload::Int(a), a)
        },
        HostImpl::Identity => (p, receiver),
        HostImpl::Zero => (p, 0),
    }
}

/// The value `spec_host_step` returns, computed without consuming the
/// payload.
fn host_result_exec(h: HostImpl, receiver: u32, p: &Payload, args: &Vec<u32>) -> (r: u32)
    ensures
        r == spec_host_step(h, receiver, *p, args@).1,
{
    match h {
        HostImpl::GetInt => int_of_exec(p),
        HostImpl::IncInt => {
            let n0 = int_of_exec(p);
            if n0 == 0xFFFF_FFFF {
                0
            } else {
                n0 + 1
            }
        },
        HostImpl::SetInt => if args.len() > 0 {
            args[0]
        } else {
            0
        },
        HostImpl::Identity => receiver,
        HostImpl::Zero => 0,
    }
}

/// `int_of`, executably.
fn int_of_exec(p: &Payload) -> (n: u32)
    ensures
        n == int_of(*p),
{
    match p {
        Payload::Int(n) => *n,
        _ => 0,
    }
}

/// A class that binds the selector itself wins immediately: dispatch never
/// looks past the most-derived definition.
pub proof fn lemma_dispatch_override(classes: Seq<ClassDef>, b: int, sel: usize, fuel: nat)
    requires
        0 <= b < classes.len(),
        fuel >= 1,
        find_method(classes[b].methods@, sel) is Some,
    ensures
        spec_resolve(classes, b, sel, fuel) == Resolution::Found(
            find_method(classes[b].methods@, sel).unwrap(),
        ),
{
}

/// A class that does not bind the selector defers to its superclass: its
/// resolution is exactly the superclass's resolution.
pub proof fn lemma_dispatch_inherited(
    classes: Seq<ClassDef>,
    b: int,
    a: int,
    sel: usize,
    fuel: nat,
)
    requires
        0 <= b < classes.len(),
        fuel >= 1,
        find_method(classes[b].methods@, sel) is None,
        classes[b].superclass matches Some(sup) && find_class(classes, sup@) == Some(a),
    ensures
        spec_resolve(classes, b, sel, fuel) == spec_resolve(classes, a, sel, (fuel - 1) as nat),
{
}

/// The most-derived dispatch law: with classes A (which binds selector S)
/// and B whose superclass is A, sending S to a B instance reaches A's
/// implementation when B does not override it and B's own when it does —
/// and a superclass-directed send from B's context reaches A's either
/// way.
pub proof fn lemma_dispatch_most_derived(
    classes: Seq<ClassDef>,
    a: int,
    b: int,
    sel: usize,
    fuel: nat,
)
    requires
        0 <= a < classes.len(),
        0 <= b < classes.len(),
        classes[b].superclass matches Some(sup) && find_class(classes, sup@) == Some(a),
        find_method(classes[a].methods@, sel) is Some,
        fuel >= 2,
    ensures
        find_method(classes[b].methods@, sel) is None ==> spec_resolve(classes, b, sel, fuel)
            == Resolution::Found(find_method(classes[a].methods@, sel).unwrap()),
        find_method(classes[b].methods@, sel) matches Some(impb) ==> spec_resolve(
            classes,
            b,
            sel,
            fuel,
        ) == Resolution::Found(impb),
        spec_resolve_super(classes, b, sel, (fuel - 1) as nat) == Resolution::Found(
            find_method(classes[a].methods@, sel).unwrap(),
        ),
{
    if find_method(classes[b].methods@, sel) is None {
        lemma_dispatch_inherited(classes, b, a, sel, fuel);
        lemma_dispatch_override(classes, a, sel, (fuel - 1) as nat);
    } else {
        lemma_dispatch_override(classes, b, sel, fuel);
    }
    lemma_dispatch_override(classes, a, sel, (fuel - 1) as nat);
}

/// A retain or a release of a fresh object, for stating the lifecycle law.
#[derive(Debug, Clone, Copy, PartialEq, Eq, Structural)]
pub enum RcOp {
    Retain,
    Release,
}

/// The number of retains in a sequence of operations.
pub open spec fn count_retains(ops: Seq<RcOp>) -> int
    decreases ops.len(),
{
    if ops.len() == 0 {
        0
    } else {
        (if ops[0] is Retain {
            1int
        } else {
            0int
        }) + count_retains(ops.drop_first())
    }
}

/// The number of releases in a sequence of operations.
pub open spec fn count_releases(ops: Seq<RcOp>) -> int
    decreases ops.len(),
{
    if ops.len() == 0 {
        0
    } else {
        (if ops[0] is Release {
            1int
        } else {
            0int
        }) + count_releases(ops.drop_first())
    }
}

/// Applies a sequence of retains and releases of `id` to the side table
/// and destruction log, exactly as the executable `retain` and `release`
/// do; `None` as soon as one of them would be a violation.
pub open spec fn rc_apply(m: Map<u32, ObjEntry>, d: Seq<u32>, id: u32, ops: Seq<RcOp>) -> Option<
    (Map<u32, ObjEntry>, Seq<u32>),
>
    decreases ops.len(),
{
    if ops.len() == 0 {
        Some((m, d))
    } else {
        match ops[0] {
            RcOp::Retain => if !spec_retain_ok(m, id) {
                None
            } else {
                rc_apply(spec_retain_map(m, id), d, id, ops.drop_first())
            },
            RcOp::Release => if !spec_release_ok(m, id) {
                None
            } else {
                rc_apply(
                    spec_release_map(m, id),
                    spec_release_log(m, d, id),
                    id,
                    ops.drop_first(),
                )
            },
        }
    }
}

/// The generalised lifecycle invariant, from an arbitrary current count.
proof fn lemma_rc_run(m: Map<u32, ObjEntry>, d: Seq<u32>, id: u32, ops: Seq<RcOp>, rc: int)
    requires
        m.contains_key(id),
        !m[id].permanent,
        m[id].refcount == rc,
        rc >= 1,
        rc_apply(m, d, id, ops) is Some,
    ensures
        ({
            let (m2, d2) = rc_apply(m, d, id, ops).unwrap();
            &&& (!m2.contains_key(id) <==> count_releases(ops) == count_retains(ops) + rc)
            &&& (!m2.contains_key(id) ==> d2 == d.push(id))
            &&& (m2.contains_key(id) ==> d2 == d && !m2[id].permanent && m2[id].refcount == rc
                + count_retains(ops) - count_releases(ops) && count_releases(ops) < count_retains(
                ops,
            ) + rc)
        }),
    decreases ops.len(),
{
    if ops.len() == 0 {
    } else {
        let rest = ops.drop_first();
        match ops[0] {
            RcOp::Retain => {
                let m2 = spec_retain_map(m, id);
                assert(spec_retain_ok(m, id));
                assert(m2[id].refcount == rc + 1);
                assert(rc_apply(m, d, id, ops) == rc_apply(m2, d, id, rest));
                assert(count_retains(ops) == 1 + count_retains(rest));
                assert(count_releases(ops) == count_releases(rest));
                lemma_rc_run(m2, d, id, rest, rc + 1);
            },
            RcOp::Release => {
                assert(count_retains(ops) == count_retains(rest));
                assert(count_releases(ops) == 1 + count_releases(rest));
                if m[id].refcount == 1 {
                    let m2 = spec_release_map(m, id);
                    let d2 = spec_release_log(m, d, id);
                    assert(rc_apply(m, d, id, ops) == rc_apply(m2, d2, id, rest));
                    assert(!m2.contains_key(id));
                    lemma_rc_dead(m2, d2, id, rest);
                    assert(count_retains(rest) == 0);
                    assert(count_releases(rest) == 0);
                } else {
                    let m2 = spec_release_map(m, id);
                    assert(rc_apply(m, d, id, ops) == rc_apply(
                        m2,
                        spec_release_log(m, d, id),
                        id,
                        rest,
                    ));
                    assert(m2[id].refcount == rc - 1);
                    lemma_rc_run(m2, spec_release_log(m, d, id), id, rest, rc - 1);
                }
            },
        }
    }
}

/// Once the object is gone, only the empty run avoids a violation.
proof fn lemma_rc_dead(m: Map<u32, ObjEntry>, d: Seq<u32>, id: u32, ops: Seq<RcOp>)
    requires
        !m.contains_key(id),
        rc_apply(m, d, id, ops) is Some,
    ensures
        rc_apply(m, d, id, ops) == Some((m, d)),
        ops.len() == 0,
{
}

/// The reference-count lifecycle law: starting from a fresh object (count
/// one), any violation-free sequence of retains and releases deallocates
/// the object exactly once, precisely when the cumulative releases equal
/// the cumulative retains plus the initial allocation — and not before:
/// while the count of releases stays below, the object is live with count
/// `1 + retains - releases` and nothing was logged as destroyed.
pub proof fn lemma_refcount_lifecycle(m: Map<u32, ObjEntry>, d: Seq<u32>, id: u32, ops: Seq<RcOp>)
    requires
        m.contains_key(id),
        !m[id].permanent,
        m[id].refcount == 1,
        rc_apply(m, d, id, ops) is Some,
    ensures
        ({
            let (m2, d2) = rc_apply(m, d, id, ops).unwrap();
            &&& (!m2.contains_key(id) <==> count_releases(ops) == count_retains(ops) + 1)
            &&& (!m2.contains_key(id) ==> d2 == d.push(id))
            &&& (m2.contains_key(id) ==> d2 == d && m2[id].refcount == 1 + count_retains(ops)
                - count_releases(ops))
        }),
{
    lemma_rc_run(m, d, id, ops, 1);
}

/// The autorelease pool balance law: push a pool, autorelease any ids into
/// it, and the stack's innermost pool holds exactly those ids while every
/// outer pool is untouched — so the matching pop releases exactly those
/// ids and nothing else.
pub proof fn lemma_pool_balance(pools: Seq<Seq<u32>>, ids: Seq<u32>)
    ensures
        spec_autorelease_all(spec_push_pool(pools), ids).len() == pools.len() + 1,
        spec_autorelease_all(spec_push_pool(pools), ids).last() == ids,
        spec_autorelease_all(spec_push_pool(pools), ids).drop_last() == pools,
{
    lemma_autorelease_all_last(spec_push_pool(pools), ids);
    assert(spec_push_pool(pools).drop_last() =~= pools);
    assert(spec_push_pool(pools).last().add(ids) =~= ids);
}

/// Autoreleasing only ever grows the innermost pool.
proof fn lemma_autorelease_all_last(pools: Seq<Seq<u32>>, ids: Seq<u32>)
    requires
        pools.len() >= 1,
    ensures
        spec_autorelease_all(pools, ids).len() == pools.len(),
        spec_autorelease_all(pools, ids).last() == pools.last().add(ids),
        spec_autorelease_all(pools, ids).drop_last() == pools.drop_last(),
    decreases ids.len(),
{
    if ids.len() == 0 {
        assert(pools.last().add(ids) =~= pools.last());
    } else {
        let p2 = spec_autorelease(pools, ids[0]);
        lemma_autorelease_all_last(p2, ids.drop_first());
        assert(p2.drop_last() =~= pools.drop_last());
        assert(p2.last() == pools.last().push(ids[0]));
        assert(pools.last().push(ids[0]).add(ids.drop_first()) =~= pools.last().add(ids));
    }
}

/// A recorded superclass link matches the requested one: both absent, or
/// both present with the same name.
pub open spec fn super_name_matches(stored: Option<String>, asked: Option<&str>) -> bool {
    match (stored, asked) {
        (Option::None, Option::None) => true,
        (Option::Some(a), Option::Some(b)) => a@ == b@,
        _ => false,
    }
}

/// String equality, specified over the views.
pub(crate) fn string_eq(a: &String, b: &String) -> (r: bool)
    ensures
        r == (a@ == b@),
{
    a.eq(b)
}

/// Elementwise equality of two method tables.
fn method_tables_eq(a: &Vec<MethodEntry>, b: &Vec<MethodEntry>) -> (r: bool)
    ensures
        r == (a@ == b@),
{
    if a.len() != b.len() {
        return false;
    }
    let n = a.len();
    let mut i: usize = 0;
    while i < n
        invariant
            i <= n,
            n == a@.len(),
            n == b@.len(),
            forall|j: int| 0 <= j < i ==> a@[j] == b@[j],
        decreases n - i,
    {
        if a[i] != b[i] {
            return false;
        }
        i += 1;
    }
    assert(a@ =~= b@);
    true
}

/// A successful selector lookup names the selector it found.
pub proof fn lemma_find_sel_found(selectors: Seq<String>, name: Seq<char>, i: int, r: int)
    requires
        0 <= i <= selectors.len(),
        find_sel_from(selectors, name, i) == Some(r),
    ensures
        i <= r < selectors.len(),
        selectors[r]@ == name,
    decreases selectors.len() - i,
{
    if i < selectors.len() && selectors[i]@ != name {
        lemma_find_sel_found(selectors, name, i + 1, r);
    }
}

/// A failed selector lookup means no selector from `i` on has the name.
pub proof fn lemma_find_sel_none(selectors: Seq<String>, name: Seq<char>, i: int)
    requires
        0 <= i <= selectors.len(),
        find_sel_from(selectors, name, i) is None,
    ensures
        forall|k: int| i <= k < selectors.len() ==> selectors[k]@ != name,
    decreases selectors.len() - i,
{
    if i < selectors.len() {
        lemma_find_sel_none(selectors, name, i + 1);
    }
}

/// A successful class lookup names the class it found.
pub proof fn lemma_find_class_found(classes: Seq<ClassDef>, name: Seq<char>, i: int, r: int)
    requires
        0 <= i <= classes.len(),
        find_class_from(classes, name, i) == Some(r),
    ensures
        i <= r < classes.len(),
        classes[r].name@ == name,
    decreases classes.len() - i,
{
    if i < classes.len() && classes[i].name@ != name {
        lemma_find_class_found(classes, name, i + 1, r);
    }
}

/// A failed class lookup means no class from `i` on has the name.
pub proof fn lemma_find_class_none(classes: Seq<ClassDef>, name: Seq<char>, i: int)
    requires
        0 <= i <= classes.len(),
        find_class_from(classes, name, i) is None,
    ensures
        forall|k: int| i <= k < classes.len() ==> classes[k].name@ != name,
    decreases classes.len() - i,
{
    if i < classes.len() {
        lemma_find_class_none(classes, name, i + 1);
    }
}

/// Appending a selector with a new name leaves every other lookup alone
/// and makes the new name findable at the end.
proof fn lemma_find_sel_push(selectors: Seq<String>, name: Seq<char>, pushed: String)
    requires
        find_sel(selectors, name) is None,
        pushed@ == name,
    ensures
        find_sel(selectors.push(pushed), name) == Some(selectors.len() as int),
{
    lemma_find_sel_push_from(selectors, name, pushed, 0);
}

proof fn lemma_find_sel_push_from(selectors: Seq<String>, name: Seq<char>, pushed: String, i: int)
    requires
        find_sel_from(selectors, name, i) is None,
        pushed@ == name,
        0 <= i <= selectors.len(),
    ensures
        find_sel_from(selectors.push(pushed), name, i) == Some(selectors.len() as int),
    decreases selectors.len() - i,
{
    if i == selectors.len() {
    } else {
        lemma_find_sel_push_from(selectors, name, pushed, i + 1);
    }
}

/// A class lookup that succeeds keeps succeeding, with the same index,
/// after more classes are registered.
pub proof fn lemma_find_class_push_stable(classes: Seq<ClassDef>, name: Seq<char>, pushed: ClassDef, i: int)
    requires
        0 <= i <= classes.len(),
        find_class_from(classes, name, i) is Some,
    ensures
        find_class_from(classes.push(pushed), name, i) == find_class_from(classes, name, i),
    decreases classes.len() - i,
{
    if i < classes.len() && classes[i].name@ != name {
        lemma_find_class_push_stable(classes, name, pushed, i + 1);
    }
}

/// Appending a class with a new name makes that name findable at the end.
proof fn lemma_find_class_push(classes: Seq<ClassDef>, name: Seq<char>, pushed: ClassDef)
    requires
        find_class(classes, name) is None,
        pushed.name@ == name,
    ensures
        find_class(classes.push(pushed), name) == Some(classes.len() as int),
{
    lemma_find_class_push_from(classes, name, pushed, 0);
}

proof fn lemma_find_class_push_from(classes: Seq<ClassDef>, name: Seq<char>, pushed: ClassDef, i: int)
    requires
        find_class_from(classes, name, i) is None,
        pushed.name@ == name,
        0 <= i <= classes.len(),
    ensures
        find_class_from(classes.push(pushed), name, i) == Some(classes.len() as int),
    decreases classes.len() - i,
{
    if i == classes.len() {
    } else {
        lemma_find_class_push_from(classes, name, pushed, i + 1);
    }
}

} // verus!
