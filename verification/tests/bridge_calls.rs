use guestkit::bridge::Bridge;
use guestkit::error::Error;

#[test]
fn three_level_reentrant_chain_unwinds_to_the_right_callers() {
    let mut b = Bridge::new();

    // Host invokes a guest callback...
    b.begin_call(0x1000, vec![1]);
    // ...which triggers a host call that invokes a second callback...
    b.begin_call(0x2000, vec![2]);
    // ...which triggers a third.
    b.begin_call(0x3000, vec![3]);
    assert_eq!(b.depth(), 3);

    // Each level returns a distinct sentinel; every return value reaches
    // the frame that began that very call, innermost first.
    assert_eq!(b.finish_call(300), Ok((0x3000, 300)));
    assert_eq!(b.depth(), 2);
    assert_eq!(b.finish_call(200), Ok((0x2000, 200)));
    assert_eq!(b.depth(), 1);
    assert_eq!(b.finish_call(100), Ok((0x1000, 100)));
    assert_eq!(b.depth(), 0);
}

#[test]
fn unmatched_return_is_a_hard_failure() {
    let mut b = Bridge::new();
    assert_eq!(b.finish_call(1), Err(Error::CallBridgeImbalance));
    b.begin_call(0x1000, Vec::new());
    assert!(b.finish_call(7).is_ok());
    assert_eq!(b.finish_call(8), Err(Error::CallBridgeImbalance));
}
