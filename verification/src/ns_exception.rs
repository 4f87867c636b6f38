//! The exception-name constants and the uncaught-exception handler hook.
//!
//! Every constant is an exception name: the exported symbol is the name
//! with a leading underscore, and the producer materializes the name
//! itself as a permanent string object. The uncaught-exception handler a
//! guest installs would only do last-minute logging before termination;
//! it is recorded and otherwise ignored.

use crate::dyld::{FnDesc, HostConstant, HostFunc};
use crate::env::Environment;
use vstd::prelude::*;

verus! {

/// An uncaught-exception handler would only do last-minute logging
/// before the process terminates, so the address is deliberately ignored:
/// the call changes no context state and no handler is ever registered or
/// invoked.
#[allow(non_snake_case)]
pub fn NSSetUncaughtExceptionHandler(env: &mut Environment, _handler: u32)
    requires
        old(env).wf(),
    ensures
        *final(env) == *old(env),
{
}

/// The exception-name constant exports: each pair binds the
/// underscore-prefixed symbol to a string-constant producer for the bare
/// name.
#[verifier::loop_isolation(false)]
pub fn constant_exports() -> (r: Vec<(String, HostConstant)>)
    ensures
        r@.len() == 66,
        forall|i: int|
            0 <= i < r@.len() ==> (#[trigger] r@[i].1 matches HostConstant::NSString(t) && r@[i].0@
                == seq!['_'] + t@),
{
    let names: Vec<&str> = vec![
        "NSCharacterConversionException",
        "NSDecimalNumberDivideByZeroException",
        "NSDecimalNumberExactnessException",
        "NSDecimalNumberOverflowException",
        "NSDecimalNumberUnderflowException",
        "NSDestinationInvalidException",
        "NSFileHandleOperationException",
        "NSGenericException",
        "NSInternalInconsistencyException",
        "NSInvalidArchiveOperationException",
        "NSInvalidArgumentException",
        "NSInvalidReceivePortException",
        "NSInvalidSendPortException",
        "NSInvalidUnarchiveOperationException",
        "NSInvocationOperationCancelledException",
        "NSInvocationOperationVoidResultException",
        "NSMallocException",
        "NSObjectInaccessibleException",
        "NSObjectNotAvailableException",
        "NSOldStyleException",
        "NSParseErrorException",
        "NSPortReceiveException",
        "NSPortSendException",
        "NSPortTimeoutException",
        "NSRangeException",
        "NSUndefinedKeyException",
        "NSInconsistentArchiveException",
        "NSPPDIncludeNotFoundException",
        "NSPPDIncludeStackOverflowException",
        "NSPPDIncludeStackUnderflowException",
        "NSPPDParseException",
        "NSRTFPropertyStackOverflowException",
        "NSTIFFException",
        "NSAbortModalException",
        "NSAbortPrintingException",
        "NSAccessibilityException",
        "NSAppKitIgnoredException",
        "NSAppKitVirtualMemoryException",
        "NSBadBitmapParametersException",
        "NSBadComparisonException",
        "NSBadRTFColorTableException",
        "NSBadRTFDirectiveException",
        "NSBadRTFFontTableException",
        "NSBadRTFStyleSheetException",
        "NSBrowserIllegalDelegateException",
        "NSColorListIOException",
        "NSColorListNotEditableException",
        "NSDraggingException",
        "NSFontUnavailableException",
        "NSIllegalSelectorException",
        "NSImageCacheException",
        "NSNibLoadingException",
        "NSPasteboardCommunicationException",
        "NSPrintOperationExistsException",
        "NSPrintPackageException",
        "NSPrintingCommunicationException",
        "NSTextLineTooLongException",
        "NSTextNoSelectionException",
        "NSTextReadException",
        "NSTextWriteException",
        "NSTypedStreamVersionException",
        "NSWindowServerCommunicationException",
        "NSWordTablesReadException",
        "NSWordTablesWriteException",
        "UIViewControllerHierarchyInconsistencyException",
        "UIApplicationInvalidInterfaceOrientationException",
    ];
    proof {
        reveal_strlit("_");
        assert("_"@ =~= seq!['_']);
    }
    let mut out: Vec<(String, HostConstant)> = Vec::new();
    let n = names.len();
    let mut i: usize = 0;
    while i < n
        invariant
            i <= n,
            out@.len() == i,
            forall|k: int|
                0 <= k < i ==> (#[trigger] out@[k].1 matches HostConstant::NSString(t)
                    && out@[k].0@ == seq!['_'] + t@),
        decreases n - i,
    {
        let name = names[i];
        let symbol = String::from_str("_").concat(name);
        let text = name.to_owned();
        out.push((symbol, HostConstant::NSString(text)));
        i += 1;
    }
    out
}

/// The function exports: the uncaught-exception handler installer.
pub fn function_exports() -> (r: Vec<(String, FnDesc)>)
    ensures
        r@.len() == 1,
        r@[0].0@ == "_NSSetUncaughtExceptionHandler"@,
        r@[0].1 == (FnDesc { arity: 1, func: HostFunc::SetUncaughtExceptionHandler }),
{
    let mut out: Vec<(String, FnDesc)> = Vec::new();
    out.push(
        (
            String::from_str("_NSSetUncaughtExceptionHandler"),
            FnDesc { arity: 1, func: HostFunc::SetUncaughtExceptionHandler },
        ),
    );
    out
}

/// Installs the exception exports into a context's linker tables, as the
/// load-time setup does for every framework table.
pub fn install(env: &mut Environment)
    requires
        old(env).wf(),
    ensures
        final(env).wf(),
        final(env).dyld.constants().len() == old(env).dyld.constants().len() + 66,
        final(env).dyld.functions().len() == old(env).dyld.functions().len() + 1,
        final(env).dyld.memo() == old(env).dyld.memo(),
        final(env).dyld.stubbed() == old(env).dyld.stubbed(),
        final(env).dyld.strict() == old(env).dyld.strict(),
        final(env).mem == old(env).mem,
        final(env).objc == old(env).objc,
        final(env).bridge == old(env).bridge,
        final(env).ns_string == old(env).ns_string,
{
    let mut consts = constant_exports();
    let total = consts.len();
    while consts.len() > 0
        invariant
            old(env).wf(),
            consts@.len() <= total,
            total == 66,
            env.dyld.constants().len() == old(env).dyld.constants().len() + (total
                - consts@.len()),
            env.dyld.functions() == old(env).dyld.functions(),
            env.dyld.memo() == old(env).dyld.memo(),
            env.dyld.stubbed() == old(env).dyld.stubbed(),
            env.dyld.strict() == old(env).dyld.strict(),
            env.mem == old(env).mem,
            env.objc == old(env).objc,
            env.bridge == old(env).bridge,
            env.ns_string == old(env).ns_string,
            env.wf(),
        decreases consts@.len(),
    {
        match consts.pop() {
            Option::Some(pair) => {
                let ghost consts_pre = env.dyld.constants();
                env.dyld.add_constant(pair.0.as_str(), pair.1);
                proof {
                    assert(env.dyld.constants() =~= consts_pre.push(
                        env.dyld.constants()[consts_pre.len() as int],
                    ));
                    crate::env::lemma_memo_backed_grow(
                        consts_pre,
                        env.dyld.constants()[consts_pre.len() as int],
                        env.dyld.memo(),
                        env.objc.objects(),
                    );
                }
            },
            Option::None => {},
        }
    }
    let funcs = function_exports();
    let desc = funcs[0].1;
    env.dyld.add_function("_NSSetUncaughtExceptionHandler", desc);
}

} // verus!
