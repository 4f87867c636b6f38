//! The host/guest call bridge: the calling-convention translator between
//! host code and guest code run by the external execution engine.
//!
//! Host-to-guest calls are reentrant — a guest callback may trigger a host
//! call which triggers a further guest callback — so the bridge's state is
//! an explicit stack of call frames, not a singleton: each return value is
//! delivered to the frame that began the call, in strict LIFO order.

use crate::dyld::{HostFunc, Resolved};
use crate::env::Environment;
use crate::error::Error;
use crate::lookup::assoc_find;
use vstd::prelude::*;

verus! {

/// One host-to-guest call in flight: the guest entry address and the
/// arguments written into the guest-convention registers.
pub struct Frame {
    pub target: u32,
    pub args: Vec<u32>,
}

/// The bridge's call stack, innermost call last.
pub struct Bridge {
    frames: Vec<Frame>,
}

/// The stack after beginning a call.
pub open spec fn spec_begin(frames: Seq<Frame>, f: Frame) -> Seq<Frame> {
    frames.push(f)
}

/// The stack after the innermost call returns, and the frame the return
/// value is delivered to.
pub open spec fn spec_finish(frames: Seq<Frame>) -> (Seq<Frame>, Frame) {
    (frames.drop_last(), frames.last())
}

impl Bridge {
    /// The calls in flight, outermost first.
    pub closed spec fn frames(&self) -> Seq<Frame> {
        self.frames@
    }

    /// A bridge with no call in flight.
    pub fn new() -> (b: Bridge)
        ensures
            b.frames() =~= Seq::<Frame>::empty(),
    {
        Bridge { frames: Vec::new() }
    }

    /// How many calls are in flight.
    pub fn depth(&self) -> (d: usize)
        ensures
            d == self.frames().len(),
    {
        self.frames.len()
    }

    /// Begins a host-to-guest call: pushes the frame whose arguments the
    /// embedder writes into the guest registers before setting the
    /// program counter to `target` and driving the execution engine.
    pub fn begin_call(&mut self, target: u32, args: Vec<u32>)
        ensures
            final(self).frames() == spec_begin(old(self).frames(), (Frame { target, args })),
    {
        self.frames.push(Frame { target, args });
    }

    /// Delivers a guest return value: pops the innermost frame and hands
    /// `ret` back as that frame's result, paired with the frame's target
    /// so the caller can check which call completed. A return with no
    /// call in flight is a hard failure.
    pub fn finish_call(&mut self, ret: u32) -> (r: Result<(u32, u32), Error>)
        ensures
            match r {
                Ok((t, v)) => {
                    &&& old(self).frames().len() > 0
                    &&& t == spec_finish(old(self).frames()).1.target
                    &&& v == ret
                    &&& final(self).frames() == spec_finish(old(self).frames()).0
                },
                Err(e) => {
                    &&& old(self).frames().len() == 0
                    &&& final(self).frames() == old(self).frames()
                    &&& e == Error::CallBridgeImbalance
                },
            },
    {
        match self.frames.pop() {
            Option::Some(f) => Ok((f.target, ret)),
            Option::None => Err(Error::CallBridgeImbalance),
        }
    }
}

/// The value a host-native function returns, as a function of the
/// behaviour and the marshalled arguments.
pub open spec fn spec_host_func_result(f: HostFunc, args: Seq<u32>) -> u32 {
    match f {
        HostFunc::SetUncaughtExceptionHandler => 0u32,
        HostFunc::Noop => 0u32,
        HostFunc::ReturnConst(k) => k,
    }
}

/// Runs a host-native function against the context: the guest-to-host
/// direction's last step, after the bridge has marshalled the arguments.
pub fn run_host_function(env: &mut Environment, f: HostFunc, args: &Vec<u32>) -> (r: u32)
    requires
        old(env).wf(),
    ensures
        final(env).wf(),
        r == spec_host_func_result(f, args@),
        *final(env) == *old(env),
{
    match f {
        HostFunc::SetUncaughtExceptionHandler => {
            let handler = if args.len() > 0 {
                args[0]
            } else {
                0
            };
            crate::ns_exception::NSSetUncaughtExceptionHandler(env, handler);
            0
        },
        HostFunc::Noop => 0,
        HostFunc::ReturnConst(k) => k,
    }
}

/// The guest-to-host direction: the execution engine trapped on a call to
/// an imported symbol; the bridge resolves it, runs the bound host
/// function with the marshalled arguments, and hands back the value to
/// write into the guest's return register. A symbol bound in the
/// constant table is data, not code, so calling it is refused; in
/// permissive mode a missing symbol's stub returns zero.
pub fn handle_import_call(env: &mut Environment, name: &str, args: &Vec<u32>) -> (r: Result<
    u32,
    Error,
>)
    requires
        old(env).wf(),
    ensures
        final(env).wf(),
        final(env).bridge == old(env).bridge,
        match assoc_find(old(env).dyld.functions(), name@) {
            Some(d) => {
                &&& r == Ok::<u32, Error>(spec_host_func_result(d.func, args@))
                &&& final(env).objc.objects() == old(env).objc.objects()
                &&& final(env).dyld.memo() == old(env).dyld.memo()
                &&& final(env).dyld.stubbed() == old(env).dyld.stubbed()
            },
            None => {
                &&& match r {
                    Ok(v) => v == 0 && !old(env).dyld.strict() && assoc_find(
                        old(env).dyld.memo(),
                        name@,
                    ) is None && assoc_find(old(env).dyld.constants(), name@) is None,
                    Err(Error::WrongHostObject { object }) => assoc_find(
                        old(env).dyld.memo(),
                        name@,
                    ) is Some || assoc_find(old(env).dyld.constants(), name@) is Some,
                    Err(Error::UnresolvedSymbol { symbol }) => {
                        &&& old(env).dyld.strict()
                        &&& symbol@ == name@
                        &&& assoc_find(old(env).dyld.memo(), name@) is None
                        &&& assoc_find(old(env).dyld.constants(), name@) is None
                    },
                    Err(Error::OutOfMemory) => assoc_find(
                        old(env).dyld.constants(),
                        name@,
                    ) is Some,
                    Err(_) => false,
                }
            },
        },
{
    match crate::dyld::resolve_symbol(env, name) {
        Ok(Resolved::Func(d)) => Ok(run_host_function(env, d.func, args)),
        Ok(Resolved::Const(id)) => Err(Error::WrongHostObject { object: id }),
        Ok(Resolved::Stub) => Ok(0),
        Err(e) => Err(e),
    }
}

/// The reentrant-unwind law: a finish undoes exactly the matching begin —
/// whatever calls were in flight before, beginning a call and then
/// finishing it delivers the return value to that very frame and restores
/// the surrounding stack, so each level of a nested host/guest call chain
/// hands its value to its own caller.
pub proof fn lemma_bridge_nesting(frames: Seq<Frame>, f: Frame)
    ensures
        spec_finish(spec_begin(frames, f)) == (frames, f),
{
    assert(spec_begin(frames, f).drop_last() =~= frames);
}

} // verus!
