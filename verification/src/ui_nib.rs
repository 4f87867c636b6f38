//! Loading of interface archives: the loader contract over a decoded
//! archive.
//!
//! The archive container format itself is an external collaborator's
//! concern: a decoder reconstructs the object graph by driving the
//! standard allocation and message-send path and hands the loader the
//! decoded lists of object ids. The loader then finishes the job through
//! ordinary dispatch: every connection object is sent `connect` to wire
//! its outlet or action up, and every visible window is sent `setHidden`
//! with a false (zero) argument. A file that could not be read at all is
//! the one recoverable failure, surfaced as `MissingResource`.

use crate::env::Environment;
use crate::error::Error;
use crate::objc::{
    dispatch_fuel, find_sel, lemma_find_sel_found, spec_host_step, spec_resolve, ClassDef,
    ImpKind, ObjC, ObjEntry, Resolution, SendOutcome,
};
use vstd::prelude::*;

verus! {

/// A decoded interface archive: the id lists an external decoder built
/// through the standard allocation and dispatch path.
pub struct NibArchive {
    /// Every object the archive held (decoded for its side effects).
    pub objects: Vec<u32>,
    /// The connection objects to send `connect` to.
    pub connections: Vec<u32>,
    /// The windows to make visible.
    pub visible_windows: Vec<u32>,
    /// The top-level objects the load hands back to its caller.
    pub top_level_objects: Vec<u32>,
}

/// One host-dispatched send of `sel` to `id`, as the loader performs it:
/// the receiver must be live and resolve to a host implementation, which
/// steps its payload.
pub open spec fn spec_host_send_step(
    classes: Seq<ClassDef>,
    m: Map<u32, ObjEntry>,
    id: u32,
    sel: usize,
    args: Seq<u32>,
) -> Option<Map<u32, ObjEntry>> {
    if !m.contains_key(id) {
        None
    } else {
        match spec_resolve(classes, m[id].class as int, sel, dispatch_fuel(classes)) {
            Resolution::Found(ImpKind::Host(h)) => {
                let e = m[id];
                let stepped = spec_host_step(h, id, e.payload, args);
                Some(
                    m.insert(
                        id,
                        ObjEntry {
                            class: e.class,
                            refcount: e.refcount,
                            permanent: e.permanent,
                            payload: (if e.permanent {
                                e.payload
                            } else {
                                stepped.0
                            }),
                        },
                    ),
                )
            },
            _ => None,
        }
    }
}

/// Sending `sel` to each id in order, host implementations only; `None`
/// as soon as one send cannot complete.
pub open spec fn spec_send_all(
    classes: Seq<ClassDef>,
    m: Map<u32, ObjEntry>,
    ids: Seq<u32>,
    sel: usize,
    args: Seq<u32>,
) -> Option<Map<u32, ObjEntry>>
    decreases ids.len(),
{
    if ids.len() == 0 {
        Some(m)
    } else {
        match spec_host_send_step(classes, m, ids[0], sel, args) {
            None => None,
            Some(m2) => spec_send_all(classes, m2, ids.drop_first(), sel, args),
        }
    }
}

/// One loader stage: the named selector sent to every id. An empty list
/// needs no selector at all; a non-empty one needs the selector interned
/// and every send to complete.
pub open spec fn spec_stage(
    classes: Seq<ClassDef>,
    selectors: Seq<String>,
    m: Map<u32, ObjEntry>,
    ids: Seq<u32>,
    selname: Seq<char>,
    args: Seq<u32>,
) -> Option<Map<u32, ObjEntry>> {
    if ids.len() == 0 {
        Some(m)
    } else {
        match find_sel(selectors, selname) {
            None => None,
            Some(s) => spec_send_all(classes, m, ids, s as usize, args),
        }
    }
}

/// The whole load, after decoding: connect every connection, then unhide
/// every visible window.
pub open spec fn spec_load(
    classes: Seq<ClassDef>,
    selectors: Seq<String>,
    m: Map<u32, ObjEntry>,
    a: &NibArchive,
) -> Option<Map<u32, ObjEntry>> {
    match spec_stage(classes, selectors, m, a.connections@, "connect"@, Seq::empty()) {
        None => None,
        Some(m1) => spec_stage(
            classes,
            selectors,
            m1,
            a.visible_windows@,
            "setHidden"@,
            seq![0u32],
        ),
    }
}

/// Finishes loading a decoded interface archive: sends `connect` to every
/// connection object and `setHidden` (false) to every visible window,
/// through ordinary dispatch, and returns the archive's top-level
/// objects. An absent archive — the file could not be read — is the
/// recoverable `MissingResource`; everything else that can go wrong
/// (a dead id, a missing selector or implementation, an implementation
/// that only guest code could run) is a hard failure.
pub fn load_nib_file(env: &mut Environment, archive: Option<NibArchive>) -> (r: Result<
    Vec<u32>,
    Error,
>)
    requires
        old(env).wf(),
    ensures
        final(env).wf(),
        final(env).objc.classes() == old(env).objc.classes(),
        final(env).objc.selectors() == old(env).objc.selectors(),
        final(env).objc.pools() == old(env).objc.pools(),
        final(env).objc.destroyed() == old(env).objc.destroyed(),
        final(env).mem == old(env).mem,
        final(env).dyld == old(env).dyld,
        final(env).bridge == old(env).bridge,
        final(env).ns_string == old(env).ns_string,
        (r is Ok) <==> (archive matches Some(a) && spec_load(
            old(env).objc.classes(),
            old(env).objc.selectors(),
            old(env).objc.objects(),
            &a,
        ) is Some),
        archive is None ==> r == Err::<Vec<u32>, Error>(Error::MissingResource)
            && final(env).objc.objects() == old(env).objc.objects(),
        archive matches Some(a) ==> (r matches Ok(top) ==> top@ == a.top_level_objects@ && Some(
            final(env).objc.objects(),
        ) == spec_load(
            old(env).objc.classes(),
            old(env).objc.selectors(),
            old(env).objc.objects(),
            &a,
        )),
{
    let a = match archive {
        Option::Some(a) => a,
        Option::None => {
            return Err(Error::MissingResource);
        },
    };
    match send_to_each(&mut env.objc, &a.connections, "connect", &Vec::new()) {
        Ok(()) => {},
        Err(e) => {
            return Err(e);
        },
    }
    let mut hidden_args: Vec<u32> = Vec::new();
    hidden_args.push(0);
    assert(hidden_args@ =~= seq![0u32]);
    match send_to_each(&mut env.objc, &a.visible_windows, "setHidden", &hidden_args) {
        Ok(()) => {},
        Err(e) => {
            return Err(e);
        },
    }
    Ok(a.top_level_objects)
}

/// Sends one interned selector to every id in order, requiring each send
/// to complete in a host implementation.
fn send_to_each(objc: &mut ObjC, ids: &Vec<u32>, selname: &str, args: &Vec<u32>) -> (r: Result<
    (),
    Error,
>)
    requires
        old(objc).wf(),
    ensures
        final(objc).wf(),
        final(objc).classes() == old(objc).classes(),
        final(objc).selectors() == old(objc).selectors(),
        final(objc).pools() == old(objc).pools(),
        final(objc).destroyed() == old(objc).destroyed(),
        forall|x: u32|
            final(objc).objects().contains_key(x) == old(objc).objects().contains_key(x),
        forall|x: u32|
            old(objc).objects().contains_key(x) && old(objc).objects()[x].permanent
                ==> final(objc).objects().contains_key(x) && final(objc).objects()[x] == old(
                objc,
            ).objects()[x],
        match r {
            Ok(()) => spec_stage(
                old(objc).classes(),
                old(objc).selectors(),
                old(objc).objects(),
                ids@,
                selname@,
                args@,
            ) == Some(final(objc).objects()),
            Err(e) => spec_stage(
                old(objc).classes(),
                old(objc).selectors(),
                old(objc).objects(),
                ids@,
                selname@,
                args@,
            ) is None && e != Error::MissingResource,
        },
{
    if ids.len() == 0 {
        return Ok(());
    }
    let sel = match objc.lookup_selector(selname) {
        Option::Some(s) => s,
        Option::None => {
            return Err(
                Error::UnimplementedSelector { receiver: ids[0], selector: selname.to_owned() },
            );
        },
    };
    proof {
        lemma_find_sel_found(objc.selectors(), selname@, 0, sel as int);
    }
    assert(ids@.skip(0) =~= ids@);
    let k = ids.len();
    let mut i: usize = 0;
    while i < k
        invariant
            i <= k,
            k == ids@.len(),
            k > 0,
            objc.wf(),
            sel < objc.selectors().len(),
            find_sel(old(objc).selectors(), selname@) == Some(sel as int),
            objc.classes() == old(objc).classes(),
            objc.selectors() == old(objc).selectors(),
            objc.pools() == old(objc).pools(),
            objc.destroyed() == old(objc).destroyed(),
            forall|x: u32| objc.objects().contains_key(x) == old(objc).objects().contains_key(x),
            forall|x: u32|
                old(objc).objects().contains_key(x) && old(objc).objects()[x].permanent
                    ==> objc.objects().contains_key(x) && objc.objects()[x] == old(
                    objc,
                ).objects()[x],
            spec_send_all(old(objc).classes(), old(objc).objects(), ids@, sel, args@)
                == spec_send_all(objc.classes(), objc.objects(), ids@.skip(i as int), sel, args@),
        decreases k - i,
    {
        let ghost m_pre = objc.objects();
        match objc.send(ids[i], sel, args) {
            Ok(SendOutcome::Done(_)) => {
                proof {
                    assert(ids@.skip(i as int)[0] == ids@[i as int]);
                    assert(ids@.skip(i as int).drop_first() =~= ids@.skip(i as int + 1));
                    assert(spec_host_send_step(objc.classes(), m_pre, ids@[i as int], sel, args@)
                        == Some(objc.objects()));
                }
            },
            Ok(SendOutcome::EnterGuest { target, args: _ }) => {
                proof {
                    assert(ids@.skip(i as int)[0] == ids@[i as int]);
                    assert(spec_host_send_step(objc.classes(), m_pre, ids@[i as int], sel, args@)
                        is None);
                }
                return Err(Error::GuestCallRequired { target });
            },
            Err(e) => {
                proof {
                    assert(ids@.skip(i as int)[0] == ids@[i as int]);
                    assert(spec_host_send_step(objc.classes(), m_pre, ids@[i as int], sel, args@)
                        is None);
                }
                return Err(e);
            },
        }
        i += 1;
    }
    assert(ids@.skip(k as int) =~= Seq::<u32>::empty());
    Ok(())
}

} // verus!
