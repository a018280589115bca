//! Captures: the filter program, addresses, reads, and the opening order.

use netflector::capture::{
    attached, bind_addr, bound_index, check_sent, drop_outgoing_filter, link_addr, rebind_target,
    resolve_ifindex, BpfInsn, Capture, IndexError, LinkAddr, OpenStage, Opening, Read, SendFailure,
};
use netflector::net::LinkType;

fn insn(code: u16, jt: u8, jf: u8, k: u32) -> BpfInsn {
    BpfInsn { code, jt, jf, k }
}

fn prologue() -> [BpfInsn; 3] {
    [insn(0x28, 0, 0, 0xffff_f000), insn(0x15, 0, 1, 4), insn(0x06, 0, 0, 0)]
}

fn classifier() -> [BpfInsn; 2] {
    [insn(0x28, 0, 0, 12), insn(0x06, 0, 0, 0xffff_ffff)]
}

#[test]
fn drop_outgoing_filter_prepends_the_prologue() {
    let filter = drop_outgoing_filter(&prologue(), &classifier());
    assert_eq!(filter[..prologue().len()], prologue());
    assert_eq!(filter[prologue().len()..], classifier());
}

#[test]
fn the_filter_follows_what_the_kernel_can_ignore() {
    for ignores in [true, false] {
        let mut opening = Opening::start();
        opening.advance(true);
        opening.advance(true);
        assert_eq!(opening.stage, OpenStage::IgnoreOutgoing);
        opening.advance(ignores);
        assert_eq!(opening.stage, OpenStage::AttachFilter);
        let filter = opening.filter(&prologue(), &classifier());
        if ignores {
            assert_eq!(filter, classifier());
        } else {
            assert_eq!(filter, drop_outgoing_filter(&prologue(), &classifier()));
        }
    }
}

#[test]
fn an_opening_binds_only_after_its_filter() {
    let mut opening = Opening::start();
    let mut stages = vec![opening.stage];
    while opening.stage != OpenStage::Open {
        opening.advance(true);
        stages.push(opening.stage);
    }
    assert_eq!(
        stages,
        [
            OpenStage::ResolveIndex,
            OpenStage::CreateSocket,
            OpenStage::IgnoreOutgoing,
            OpenStage::AttachFilter,
            OpenStage::Bind,
            OpenStage::Open,
        ]
    );
    // Any failure but the one worked around ends the opening for good.
    for failing in [0, 1, 3, 4] {
        let mut opening = Opening::start();
        for _ in 0..failing {
            opening.advance(true);
        }
        opening.advance(false);
        assert_eq!(opening.stage, OpenStage::Failed);
        opening.advance(true);
        assert_eq!(opening.stage, OpenStage::Failed);
    }
}

#[test]
fn an_index_must_exist_and_fit() {
    assert_eq!(resolve_ifindex(Some(3)), Ok(3));
    assert_eq!(resolve_ifindex(Some(0x7fff_ffff)), Ok(i32::MAX));
    assert_eq!(resolve_ifindex(Some(0x8000_0000)), Err(IndexError::TooLarge));
    assert_eq!(resolve_ifindex(None), Err(IndexError::NotFound));
    assert_eq!(IndexError::NotFound.message("eth9"), "interface eth9 not found");
    assert_eq!(IndexError::TooLarge.message("eth9"), "interface index too large");
}

#[test]
fn addresses_carry_the_systems_numbers() {
    let addr = link_addr(5);
    assert_eq!(i32::from(addr.family), libc::AF_PACKET);
    assert_eq!((addr.ifindex, addr.protocol), (5, 0));
    let bound = bind_addr(addr);
    assert_eq!(i32::from(bound.protocol), libc::ETH_P_ALL);
    assert_eq!(bound, LinkAddr { protocol: bound.protocol, ..addr });
    assert_eq!(rebind_target(Some(5)), Ok(bound));
    assert_eq!(rebind_target(None), Err(IndexError::NotFound));
    assert_eq!(rebind_target(Some(u32::MAX)), Err(IndexError::TooLarge));
}

#[test]
fn a_socket_is_attached_only_to_its_live_interface() {
    assert!(attached(bound_index(Some(4)), 4));
    assert!(!attached(bound_index(Some(4)), 5));
    // The kernel resets the index to -1 when the interface is unregistered.
    assert!(!attached(bound_index(Some(-1)), u32::MAX));
    assert!(!attached(bound_index(None), 0));
    assert!(attached(bound_index(Some(0)), 0));
}

#[test]
fn a_send_must_take_the_whole_frame() {
    assert_eq!(check_sent(60, 0, 60), Ok(()));
    assert_eq!(check_sent(59, 0, 60), Err(SendFailure::Short));
    assert_eq!(check_sent(-1, libc::ENETDOWN, 60), Err(SendFailure::Os(libc::ENETDOWN)));
    assert_eq!(check_sent(0, 0, 0), Ok(()));
}

#[test]
fn an_oversized_frame_costs_a_read() {
    let mut capture = Capture::new((), 3, "lo".to_owned(), vec![7; 64]);
    assert!(matches!(capture.next_frame(Some(2 * 64)), Some(Read::Oversized)));
    assert!(matches!(capture.next_frame(Some(65)), Some(Read::Oversized)));
    assert_eq!(capture.take_oversized(), 2);
    assert_eq!(capture.take_oversized(), 0, "the count starts anew");
}

#[test]
fn a_read_gives_exactly_one_frame() {
    let mut capture = Capture::new((), 3, "lo".to_owned(), vec![1, 2, 3, 4]);
    assert_eq!(capture.link_type(), LinkType::Ethernet);
    assert_eq!(capture.if_name(), "lo");
    assert!(!capture.has_buffered());
    assert!(capture.next_frame(None).is_none());
    match capture.next_frame(Some(3)) {
        Some(Read::Frame(frame)) => assert_eq!(frame, [1, 2, 3]),
        _ => panic!("a frame that fits"),
    }
    match capture.next_frame(Some(4)) {
        Some(Read::Frame(frame)) => assert_eq!(frame, [1, 2, 3, 4]),
        _ => panic!("a frame that fits"),
    }
    assert_eq!(capture.take_oversized(), 0);
}
