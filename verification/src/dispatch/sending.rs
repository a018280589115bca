//! Sending on a capture: what a frame is built from, whether it goes out, and what a failure says.

use vstd::prelude::*;
use vstd::string::StringExecFns;

use super::interface_table::{CaptureEntry, SentFrame};
use super::keys::CaptureKey;
use super::{DispatchState, PacketDispatcher};
use crate::capture::SendFailure;
use crate::errno::Errnos;
use crate::interface::InterfaceAddresses;
use crate::net::LinkType;
use crate::text::{
    decimal, decimal_text, decimal_value, is_made_of, law_decimal_text_reads_back, lemma_made_of,
};

verus! {

/// A datagram built into a frame: the frame's length and the datagram's checksum.
#[derive(Clone, Copy, PartialEq, Eq, Structural, Debug)]
pub struct Built {
    pub len: usize,
    pub checksum: u16,
}

/// Whether a built frame goes out.
#[derive(Clone, Copy, PartialEq, Eq, Structural, Debug)]
pub enum SendPlan {
    /// An equal frame already went out for this packet.
    Duplicate,
    /// Send it, and note it if it goes out and belongs to a packet's routing.
    Send(Option<SentFrame>),
}

/// The words for a frame that `if_name` cannot carry.
pub open spec fn oversize_text(if_name: Seq<char>, frame_len: nat, mtu: Option<u32>) -> Seq<char> {
    "a frame of "@ + decimal_text(frame_len) + " bytes exceeds what "@ + if_name + match mtu {
        Some(mtu) => " (MTU "@ + decimal_text(mtu as nat) + ")"@,
        None => Seq::empty(),
    } + " can carry"@
}

/// Re-word the refusal of a frame for its size to name the frame, the interface, and the interface's
/// MTU where it is known. Any other failure passes through. The words replace the error number.
pub fn oversize_context(
    errnos: &Errnos,
    failure: SendFailure,
    if_name: &str,
    frame_len: usize,
    mtu: Option<u32>,
) -> (r: SendFailure)
    ensures
        if failure == SendFailure::Os(errnos.emsgsize) {
            &&& r matches SendFailure::Described(text)
            &&& text@ == oversize_text(if_name@, frame_len as nat, mtu)
        } else {
            r == failure
        },
{
    match failure {
        SendFailure::Os(errno) => {
            if errno != errnos.emsgsize {
                return SendFailure::Os(errno);
            }
        },
        other => {
            return other;
        },
    }
    let mut text = String::new();
    text.append("a frame of ");
    text.append(decimal(frame_len as u64).as_str());
    text.append(" bytes exceeds what ");
    text.append(if_name);
    if let Some(mtu) = mtu {
        text.append(" (MTU ");
        text.append(decimal(mtu as u64).as_str());
        text.append(")");
    }
    text.append(" can carry");
    assert(text@ =~= oversize_text(if_name@, frame_len as nat, mtu));
    SendFailure::Described(text)
}

/// Whether `r` is what a send on `egress` comes to, where the system reported `sent`. A capture out
/// of range or taken out drops the frame, which is no failure.
pub open spec fn send_result<S, H>(
    state: DispatchState<S, H>,
    egress: CaptureKey,
    frame_len: nat,
    sent: Result<(), SendFailure>,
    r: Result<(), SendFailure>,
) -> bool {
    match state.capture_at(egress) {
        None => r is Ok,
        Some(capture) => match sent {
            Ok(_) => r is Ok,
            Err(failure) => if failure == SendFailure::Os(state.errnos.emsgsize) {
                &&& r matches Err(SendFailure::Described(text))
                &&& text@ == oversize_text(
                    capture.name@,
                    frame_len,
                    match state.entry_behind(egress) {
                        Some(entry) => entry.interface.mtu,
                        None => None,
                    },
                )
            } else {
                r == Err::<(), SendFailure>(failure)
            },
        },
    }
}

impl<S, H> DispatchState<S, H> {
    /// The mark of a frame built while a packet is routed; one built at any other time has none.
    pub open spec fn mark(self, built: Built) -> Option<SentFrame> {
        if self.routing {
            Some(SentFrame { packet: self.packet, len: built.len, checksum: built.checksum })
        } else {
            None
        }
    }

    /// Whether a built frame goes out on `egress`.
    pub open spec fn plan(self, egress: CaptureKey, built: Built) -> SendPlan {
        match self.mark(built) {
            Some(frame) => if egress.0 < self.rows.len() && self.rows[egress.0 as int].last_sent
                == frame {
                SendPlan::Duplicate
            } else {
                SendPlan::Send(Some(frame))
            },
            None => SendPlan::Send(None),
        }
    }

    /// This with `frame`, if it is one, noted as the last sent on `egress`.
    pub open spec fn noted(self, egress: CaptureKey, frame: Option<SentFrame>) -> Self {
        match frame {
            Some(frame) => if egress.0 < self.rows.len() {
                DispatchState {
                    rows: self.rows.update(
                        egress.0 as int,
                        CaptureEntry { last_sent: frame, ..self.rows[egress.0 as int] },
                    ),
                    ..self
                }
            } else {
                self
            },
            None => self,
        }
    }
}

impl<S, H> PacketDispatcher<S, H> {
    /// What a send of a frame of `frame_len` bytes on `egress` comes to, where the system reported
    /// `sent`. A capture out of range or taken out drops the frame, which is no failure; nothing was
    /// handed to the system then, and `sent` does not count.
    pub fn send(&self, egress: CaptureKey, frame_len: usize, sent: Result<(), SendFailure>) -> (r:
        Result<(), SendFailure>)
        ensures
            send_result(self@, egress, frame_len as nat, sent, r),
    {
        match self.table.capture(egress) {
            Some(capture) => match sent {
                Ok(_) => Ok(()),
                Err(failure) => Err(
                    oversize_context(
                        &self.errnos,
                        failure,
                        capture.if_name(),
                        frame_len,
                        self.table.mtu_of(egress),
                    ),
                ),
            },
            None => Ok(()),
        }
    }

    /// What a datagram on `egress` is built from: the interface's addresses and the capture's framing.
    /// `None` drops the datagram: the capture is out of range or taken out.
    pub fn datagram_parts(&self, egress: CaptureKey) -> (r: Option<(InterfaceAddresses, LinkType)>)
        ensures
            r == match (self@.addrs_behind(egress), self@.capture_at(egress)) {
                (Some(addrs), Some(capture)) => Some((addrs, capture.link)),
                _ => None,
            },
    {
        match (self.egress_addrs(egress), self.link_type(egress)) {
            (Some(addrs), Some(link)) => Some((addrs, link)),
            _ => None,
        }
    }

    /// Whether a built frame goes out on `egress`. Two handlers that relay one packet to the same
    /// place build equal frames, and the second is not sent.
    pub fn plan_send(&self, egress: CaptureKey, built: Built) -> (r: SendPlan)
        ensures
            r == self@.plan(egress, built),
    {
        if !self.routing {
            return SendPlan::Send(None);
        }
        let frame = SentFrame { packet: self.packet, len: built.len, checksum: built.checksum };
        if self.table.is_last_sent(egress, frame) {
            SendPlan::Duplicate
        } else {
            SendPlan::Send(Some(frame))
        }
    }

    /// What the send of a planned frame of `frame_len` bytes comes to, where the system reported
    /// `sent`. The frame is noted only if the send did not fail, so that a later handler may still try.
    pub fn complete_send(
        &mut self,
        egress: CaptureKey,
        frame: Option<SentFrame>,
        frame_len: usize,
        sent: Result<(), SendFailure>,
    ) -> (r: Result<(), SendFailure>)
        requires
            old(self).wf(),
        ensures
            final(self).wf(),
            send_result(old(self)@, egress, frame_len as nat, sent, r),
            final(self)@ == if r is Ok {
                old(self)@.noted(egress, frame)
            } else {
                old(self)@
            },
    {
        let result = self.send(egress, frame_len, sent);
        if result.is_ok() {
            if let Some(frame) = frame {
                self.table.set_last_sent(egress, frame);
            }
        }
        result
    }
}

/// One packet sends one frame per egress: once a frame went out, an equal one for the same packet on
/// the same capture is a duplicate. For the next packet, or with another length or checksum, it is
/// not.
pub proof fn law_an_equal_frame_for_one_packet_goes_out_once<S, H>(
    state: DispatchState<S, H>,
    egress: CaptureKey,
    built: Built,
    other: Built,
)
    requires
        state.routing,
        egress.0 < state.rows.len(),
    ensures
        ({
            let sent = state.noted(egress, state.mark(built));
            &&& sent.plan(egress, built) == SendPlan::Duplicate
            &&& other != built ==> sent.plan(egress, other) != SendPlan::Duplicate
            &&& state.packet < u64::MAX ==> (DispatchState {
                packet: (state.packet + 1) as u64,
                ..sent
            }).plan(egress, built) != SendPlan::Duplicate
        }),
{
}

/// A frame noted on one capture suppresses none on another.
pub proof fn law_a_frame_suppresses_none_on_another_capture<S, H>(
    state: DispatchState<S, H>,
    egress: CaptureKey,
    elsewhere: CaptureKey,
    frame: Option<SentFrame>,
    built: Built,
)
    requires
        egress != elsewhere,
    ensures
        state.noted(egress, frame).plan(elsewhere, built) == state.plan(elsewhere, built),
{
}

/// Outside the routing of a packet nothing is ever a duplicate: a timer's or a session's frame always
/// goes out.
pub proof fn law_nothing_is_a_duplicate_outside_routing<S, H>(
    state: DispatchState<S, H>,
    egress: CaptureKey,
    built: Built,
)
    requires
        !state.routing,
    ensures
        state.plan(egress, built) == SendPlan::Send(None),
{
}

/// A capture that sent nothing yet suppresses nothing: packets count from 1, and its last frame is
/// marked with no packet.
pub proof fn law_an_unused_capture_suppresses_nothing<S, H>(
    state: DispatchState<S, H>,
    egress: CaptureKey,
    built: Built,
)
    requires
        state.packet > 0,
        egress.0 < state.rows.len(),
        state.rows[egress.0 as int].last_sent == SentFrame::none(),
    ensures
        state.plan(egress, built) != SendPlan::Duplicate,
{
}

/// A frame for a capture that is unknown or being drained is dropped, which is no failure, whatever the
/// system reported.
pub proof fn law_an_absent_egress_never_fails<S, H>(
    state: DispatchState<S, H>,
    egress: CaptureKey,
    frame_len: nat,
    sent: Result<(), SendFailure>,
    r: Result<(), SendFailure>,
)
    requires
        state.capture_at(egress) is None,
        send_result(state, egress, frame_len, sent, r),
    ensures
        r is Ok,
{
}

/// A built frame is a duplicate exactly if a packet is being routed and the last frame sent on that capture
/// was sent for the same packet, with the same length and the same checksum. One that is not is marked with
/// the packet it belongs to, where there is one.
pub proof fn law_a_duplicate_repeats_the_last_frame_of_its_packet<S, H>(
    state: DispatchState<S, H>,
    egress: CaptureKey,
    built: Built,
)
    ensures
        state.plan(egress, built) is Duplicate <==> {
            &&& state.routing
            &&& egress.0 < state.rows.len()
            &&& state.rows[egress.0 as int].last_sent.packet == state.packet
            &&& state.rows[egress.0 as int].last_sent.len == built.len
            &&& state.rows[egress.0 as int].last_sent.checksum == built.checksum
        },
        state.plan(egress, built) matches SendPlan::Send(frame) ==> {
            &&& frame is Some <==> state.routing
            &&& frame matches Some(frame) ==> {
                &&& frame.packet == state.packet
                &&& frame.len == built.len
                &&& frame.checksum == built.checksum
            }
        },
{
}

/// Noting a frame makes it the last one sent on its capture and changes nothing else: no other capture, and
/// nothing of this one but that. A frame that belongs to no packet, or to a capture that is not known, is not
/// noted.
pub proof fn law_noting_a_frame_touches_one_capture<S, H>(
    state: DispatchState<S, H>,
    egress: CaptureKey,
    frame: SentFrame,
    other: CaptureKey,
)
    requires
        other != egress,
        other.0 < state.rows.len(),
    ensures
        ({
            let after = state.noted(egress, Some(frame));
            &&& after.rows.len() == state.rows.len()
            &&& after.rows[other.0 as int] == state.rows[other.0 as int]
            &&& egress.0 < state.rows.len() ==> {
                &&& after.rows[egress.0 as int].last_sent == frame
                &&& after.rows[egress.0 as int].capture == state.rows[egress.0 as int].capture
                &&& after.rows[egress.0 as int].interface == state.rows[egress.0 as int].interface
                &&& after.rows[egress.0 as int].counters == state.rows[egress.0 as int].counters
            }
            &&& egress.0 >= state.rows.len() ==> after == state
            &&& after.interfaces == state.interfaces
            &&& after.registrations == state.registrations
            &&& after.packet == state.packet
            &&& after.routing == state.routing
            &&& after.report == state.report
            &&& after.next_reconcile == state.next_reconcile
        }),
        state.noted(egress, None) == state,
{
}

/// A send succeeds if the system took the frame, or if there is no capture to send on. Otherwise it fails as
/// the system said, in the system's own number, but for a frame refused for its size, which is described with
/// the capture's own interface and that interface's MTU.
pub proof fn law_a_send_fails_as_the_system_said<S, H>(
    state: DispatchState<S, H>,
    egress: CaptureKey,
    frame_len: nat,
    sent: Result<(), SendFailure>,
    r: Result<(), SendFailure>,
)
    requires
        send_result(state, egress, frame_len, sent, r),
    ensures
        r is Ok <==> sent is Ok || egress.0 >= state.rows.len() || state.rows[egress.0 as int].capture
            is None,
        r is Err ==> match sent {
            Err(SendFailure::Os(number)) => if number == state.errnos.emsgsize {
                let row = state.rows[egress.0 as int];
                &&& r->Err_0 is Described
                &&& row.interface.0 < state.interfaces.len() ==> r->Err_0->Described_0@
                    == oversize_text(
                    row.capture->0.name@,
                    frame_len,
                    state.interfaces[row.interface.0 as int].interface.mtu,
                )
            } else {
                r->Err_0 == SendFailure::Os(number)
            },
            Err(failure) => r->Err_0 == failure,
            Ok(_) => false,
        },
{
}

/// The words for a frame that is too large give its length, the interface, and the interface's MTU where it is
/// known, each number readable as what it is.
pub proof fn law_an_oversize_refusal_reads_as_it_is(name: Seq<char>, frame_len: nat, mtu: u32)
    ensures
        is_made_of(
            oversize_text(name, frame_len, Some(mtu)),
            seq![
                "a frame of "@,
                decimal_text(frame_len),
                " bytes exceeds what "@,
                name,
                " (MTU "@,
                decimal_text(mtu as nat),
                ")"@,
                " can carry"@,
            ],
        ),
        is_made_of(
            oversize_text(name, frame_len, None),
            seq![
                "a frame of "@,
                decimal_text(frame_len),
                " bytes exceeds what "@,
                name,
                " can carry"@,
            ],
        ),
        decimal_value(decimal_text(frame_len)) == frame_len,
        decimal_value(decimal_text(mtu as nat)) == mtu,
{
    law_decimal_text_reads_back(frame_len);
    law_decimal_text_reads_back(mtu as nat);
    let none = Seq::<Seq<char>>::empty();
    let empty = Seq::<char>::empty();
    assert(is_made_of(empty, none));
    let (length, limit) = (decimal_text(frame_len), decimal_text(mtu as nat));
    let (a, b, c, d, e) = (
        "a frame of "@,
        " bytes exceeds what "@,
        " (MTU "@,
        ")"@,
        " can carry"@,
    );
    lemma_made_of(empty, none, a);
    let (t1, p1) = (empty + a, none.push(a));
    lemma_made_of(t1, p1, length);
    let (t2, p2) = (t1 + length, p1.push(length));
    lemma_made_of(t2, p2, b);
    let (t3, p3) = (t2 + b, p2.push(b));
    lemma_made_of(t3, p3, name);
    let (t4, p4) = (t3 + name, p3.push(name));
    lemma_made_of(t4, p4, e);
    assert(t4 + e =~= oversize_text(name, frame_len, None));
    assert(p4.push(e) =~= seq![a, length, b, name, e]);
    lemma_made_of(t4, p4, c);
    let (t5, p5) = (t4 + c, p4.push(c));
    lemma_made_of(t5, p5, limit);
    let (t6, p6) = (t5 + limit, p5.push(limit));
    lemma_made_of(t6, p6, d);
    let (t7, p7) = (t6 + d, p6.push(d));
    lemma_made_of(t7, p7, e);
    assert(t7 + e =~= oversize_text(name, frame_len, Some(mtu)));
    assert(p7.push(e) =~= seq![a, length, b, name, c, limit, d, e]);
}

}
