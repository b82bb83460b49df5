use p9fuse::mount9p::{
    bridge_next, mount_data, BridgeEventOf, BridgeNextOf, FrameHead, Outstanding, Phase, Stall,
    CHECK_INTERVAL, NANOS_PER_SEC,
};
use p9fuse::ninep::{TFLUSH, TGETATTR, TREAD};
use p9fuse::text::{push_decimal, push_digits};

fn head(typ: u8, tag: u16, oldtag: u16) -> FrameHead {
    FrameHead { typ, tag, oldtag }
}

#[test]
fn stalls_are_noticed() {
    let mut o = Outstanding::new();
    let timeout = 10 * NANOS_PER_SEC as u128;
    assert_eq!(o.stalled(100 * NANOS_PER_SEC, timeout), None);
    o.request(head(TREAD, 2, 0), 5 * NANOS_PER_SEC);
    o.request(head(TGETATTR, 1, 0), NANOS_PER_SEC);
    assert_eq!(o.stalled(11 * NANOS_PER_SEC, timeout), None);
    let stall = Stall { tag: 1, typ: TGETATTR, age: 10 * NANOS_PER_SEC + 1, outstanding: 2 };
    assert_eq!(o.stalled(11 * NANOS_PER_SEC + 1, timeout), Some(stall));
    assert_eq!(
        stall.message(),
        "9p request stalled: Tgetattr (tag 1) unanswered for 10s, 2 outstanding"
    );
    // A timeout of 0 waits for ever.
    assert_eq!(o.stalled(u64::MAX, 0), None);
    // The answer clears it.
    o.response(head(25, 1, 0));
    assert_eq!(o.stalled(12 * NANOS_PER_SEC, timeout), None);
    assert_eq!(
        o.stalled(16 * NANOS_PER_SEC, timeout).map(|s| (s.tag, s.outstanding)),
        Some((2, 1))
    );
    assert_eq!(CHECK_INTERVAL, 5);
}

#[test]
fn flushed_requests_do_not_stall() {
    let mut o = Outstanding::new();
    o.request(head(TREAD, 1, 0), 0);
    o.request(head(TFLUSH, 2, 1), 3);
    assert_eq!(o.stalled(10, 1).map(|s| (s.tag, s.typ, s.age)), Some((2, TFLUSH, 7)));
    o.response(head(109, 2, 0));
    assert_eq!(o.stalled(10, 1), None);
}

#[test]
fn kernel_options() {
    assert_eq!(
        mount_data(7, 512000, "mmap"),
        "trans=fd,rfdno=7,wfdno=7,version=9p2000.L,msize=512000,cache=mmap,aname=/export"
    );
}

#[test]
fn bridges_end() {
    let text = |s: &str| s.to_string();
    assert_eq!(
        bridge_next(Phase::Mounting, BridgeEventOf::MountDone),
        BridgeNextOf::GoOn(Phase::Mounted)
    );
    assert_eq!(
        bridge_next(Phase::Mounting, BridgeEventOf::MountFailed(text("EPERM"))),
        BridgeNextOf::End(Err(text("EPERM")))
    );
    assert_eq!(
        bridge_next(Phase::Mounting, BridgeEventOf::PumpClosed),
        BridgeNextOf::End(Err(text("9p transport closed before mount completed")))
    );
    assert_eq!(
        bridge_next(Phase::Mounted, BridgeEventOf::PumpClosed),
        BridgeNextOf::End(Ok(()))
    );
    for phase in [Phase::Mounting, Phase::Mounted] {
        assert_eq!(
            bridge_next(phase, BridgeEventOf::PumpFailed(text("reset"))),
            BridgeNextOf::End(Err(text("reset")))
        );
        assert_eq!(
            bridge_next(phase, BridgeEventOf::Stalled(text("stalled"))),
            BridgeNextOf::End(Err(text("stalled")))
        );
    }
}

#[test]
fn numbers_in_decimal() {
    let mut s = String::new();
    push_digits(&mut s, 0);
    push_decimal(&mut s, -120);
    push_digits(&mut s, u64::MAX);
    push_decimal(&mut s, i64::MIN);
    assert_eq!(s, "0-12018446744073709551615-9223372036854775808");
}
