//! `AF_PACKET` captures: opening one in the right order, and reading its results.
//!
//! A packet socket opens with protocol 0, capturing nothing, so the filter and the loop prevention
//! are in place before the bind starts delivery: no unfiltered frame is ever queued. One read gives
//! exactly one frame.

use vstd::prelude::*;
use vstd::string::StringExecFns;

use crate::net::LinkType;

verus! {

/// One classic-BPF instruction.
#[derive(Clone, Copy, PartialEq, Eq, Structural, Debug)]
pub struct BpfInsn {
    pub code: u16,
    pub jt: u8,
    pub jf: u8,
    pub k: u32,
}

/// The loop-prevention fallback for kernels that cannot ignore outgoing frames at the socket: the
/// egress-drop `prologue` followed by the `classifier`.
pub fn drop_outgoing_filter(prologue: &[BpfInsn], classifier: &[BpfInsn]) -> (r: Vec<BpfInsn>)
    ensures
        r@ == prologue@ + classifier@,
{
    let mut filter: Vec<BpfInsn> = Vec::new();
    let mut i: usize = 0;
    while i < prologue.len()
        invariant
            i <= prologue@.len(),
            filter@ == prologue@.subrange(0, i as int),
        decreases prologue@.len() - i,
    {
        filter.push(prologue[i]);
        i += 1;
        assert(filter@ =~= prologue@.subrange(0, i as int));
    }
    assert(filter@ =~= prologue@);
    let mut j: usize = 0;
    while j < classifier.len()
        invariant
            j <= classifier@.len(),
            filter@ == prologue@ + classifier@.subrange(0, j as int),
        decreases classifier@.len() - j,
    {
        filter.push(classifier[j]);
        j += 1;
        assert(filter@ =~= prologue@ + classifier@.subrange(0, j as int));
    }
    assert(filter@ =~= prologue@ + classifier@);
    filter
}

/// Why an interface name gives no index a packet socket can bind to.
#[derive(Clone, Copy, PartialEq, Eq, Structural, Debug)]
pub enum IndexError {
    /// No interface bears the name.
    NotFound,
    /// The index exceeds what a link-layer address can carry.
    TooLarge,
}

impl IndexError {
    /// The error as an operator reads it, for the interface named `if_name`.
    pub open spec fn text(self, if_name: Seq<char>) -> Seq<char> {
        match self {
            IndexError::NotFound => "interface "@ + if_name + " not found"@,
            IndexError::TooLarge => "interface index too large"@,
        }
    }

    /// The error as an operator reads it, for the interface named `if_name`.
    pub fn message(&self, if_name: &str) -> (r: String)
        ensures
            r@ == self.text(if_name@),
    {
        let mut text = String::new();
        match self {
            IndexError::NotFound => {
                text.append("interface ");
                text.append(if_name);
                text.append(" not found");
            },
            IndexError::TooLarge => {
                text.append("interface index too large");
            },
        }
        assert(text@ =~= self.text(if_name@));
        text
    }
}

/// The index a packet socket binds to, from what the name resolved to.
pub fn resolve_ifindex(lookup: Option<u32>) -> (r: Result<i32, IndexError>)
    ensures
        match lookup {
            None => r == Err::<i32, IndexError>(IndexError::NotFound),
            Some(index) => if index <= i32::MAX {
                r == Ok::<i32, IndexError>(index as i32)
            } else {
                r == Err::<i32, IndexError>(IndexError::TooLarge)
            },
        },
{
    match lookup {
        None => Err(IndexError::NotFound),
        Some(index) => {
            if index <= i32::MAX as u32 {
                Ok(index as i32)
            } else {
                Err(IndexError::TooLarge)
            }
        },
    }
}

/// The parts of a link-layer socket address that a capture sets. The protocol is in host order.
#[derive(Clone, Copy, PartialEq, Eq, Structural, Debug)]
pub struct LinkAddr {
    pub family: u16,
    pub ifindex: i32,
    pub protocol: u16,
}

/// `libc::AF_PACKET`, which is 17 on every Linux target.
#[verifier::external_body]
fn af_packet() -> (r: i32)
    ensures
        r == 17,
{
    libc::AF_PACKET
}

/// `libc::ETH_P_ALL`, which is 3 on every Linux target.
#[verifier::external_body]
fn eth_p_all() -> (r: i32)
    ensures
        r == 3,
{
    libc::ETH_P_ALL
}

/// The packet-family address of the interface with index `ifindex`, capturing nothing yet.
pub fn link_addr(ifindex: i32) -> (r: LinkAddr)
    ensures
        r == (LinkAddr { family: 17, ifindex, protocol: 0 }),
{
    LinkAddr { family: af_packet() as u16, ifindex, protocol: 0 }
}

/// The address a bind starts delivery with: `addr`, capturing every protocol.
pub fn bind_addr(addr: LinkAddr) -> (r: LinkAddr)
    ensures
        r == (LinkAddr { protocol: 3, ..addr }),
{
    LinkAddr { protocol: eth_p_all() as u16, ..addr }
}

/// The address that re-hooks a capture's delivery to the interface its name resolves to now. The
/// filter and the loop prevention outlast a bind, so none of them has to be installed again.
pub fn rebind_target(lookup: Option<u32>) -> (r: Result<LinkAddr, IndexError>)
    ensures
        match lookup {
            None => r == Err::<LinkAddr, IndexError>(IndexError::NotFound),
            Some(index) => if index <= i32::MAX {
                r == Ok::<LinkAddr, IndexError>(
                    LinkAddr { family: 17, ifindex: index as i32, protocol: 3 },
                )
            } else {
                r == Err::<LinkAddr, IndexError>(IndexError::TooLarge)
            },
        },
{
    match resolve_ifindex(lookup) {
        Ok(ifindex) => Ok(bind_addr(link_addr(ifindex))),
        Err(e) => Err(e),
    }
}

/// The live interface index a socket is hooked to, from the one its own address reports. The kernel
/// resets that to -1 when the interface is unregistered; an unreadable address is `None`.
pub fn bound_index(reported: Option<i32>) -> (r: Option<u32>)
    ensures
        r == match reported {
            Some(index) => if index >= 0 {
                Some(index as u32)
            } else {
                None
            },
            None => None,
        },
{
    match reported {
        Some(index) => {
            if index >= 0 {
                Some(index as u32)
            } else {
                None
            }
        },
        None => None,
    }
}

/// Whether a socket hooked to `bound` is still on the live interface with index `ifindex`.
pub fn attached(bound: Option<u32>, ifindex: u32) -> (r: bool)
    ensures
        r == (bound == Some(ifindex)),
{
    bound == Some(ifindex)
}

/// Why a frame did not go out.
#[derive(PartialEq, Eq, Debug)]
pub enum SendFailure {
    /// The system refused it with this error number.
    Os(i32),
    /// The system took only part of it.
    Short,
    /// A refusal described in words, which keeps no error number.
    Described(String),
}

/// What a send's result says of a frame of `frame_len` bytes: a negative result carries `errno`.
pub fn check_sent(sent: isize, errno: i32, frame_len: usize) -> (r: Result<(), SendFailure>)
    ensures
        sent < 0 ==> r == Err::<(), SendFailure>(SendFailure::Os(errno)),
        sent >= 0 && sent != frame_len ==> r == Err::<(), SendFailure>(SendFailure::Short),
        sent >= 0 && sent == frame_len ==> r == Ok::<(), SendFailure>(()),
{
    if sent < 0 {
        return Err(SendFailure::Os(errno));
    }
    if sent as usize != frame_len {
        return Err(SendFailure::Short);
    }
    Ok(())
}

/// One successful read.
#[derive(Debug)]
pub enum Read<'a> {
    Frame(&'a [u8]),
    /// A frame larger than the receive buffer, dropped.
    Oversized,
}

/// A raw capture on one interface, around whatever `S` owns its descriptor `fd`.
#[derive(Debug)]
pub struct Capture<S> {
    pub socket: S,
    pub fd: i32,
    pub name: String,
    pub link: LinkType,
    /// Where a read puts its frame.
    pub buf: Vec<u8>,
    /// Frames dropped for exceeding the buffer since the last
    /// [`take_oversized`](Self::take_oversized).
    pub oversized: u64,
}

impl<S> Capture<S> {
    /// An opened packet socket, which frames every link as Ethernet, loopback included.
    pub fn new(socket: S, fd: i32, name: String, buf: Vec<u8>) -> (r: Self)
        ensures
            r == (Capture { socket, fd, name, link: LinkType::Ethernet, buf, oversized: 0 }),
    {
        Capture { socket, fd, name, link: LinkType::Ethernet, buf, oversized: 0 }
    }

    /// The link framing.
    pub fn link_type(&self) -> (r: LinkType)
        ensures
            r == self.link,
    {
        self.link
    }

    /// The name the capture was opened for.
    pub fn if_name(&self) -> (r: &str)
        ensures
            r@ == self.name@,
    {
        self.name.as_str()
    }

    /// Whether frames are buffered locally. Never: each read is one frame, so a level-triggered
    /// wait fires again while the socket has more.
    pub fn has_buffered(&self) -> (r: bool)
        ensures
            r == false,
    {
        false
    }

    /// What a read into the buffer gave. `received` is the frame's real length, which may exceed
    /// the buffer, or `None` where the read would block. A frame that does not fit is dropped and
    /// counted, never cut.
    pub fn next_frame(&mut self, received: Option<usize>) -> (r: Option<Read<'_>>)
        requires
            received matches Some(n) && n > old(self).buf@.len() ==> old(self).oversized < u64::MAX,
        ensures
            match received {
                None => r is None && *final(self) == *old(self),
                Some(n) => if n <= old(self).buf@.len() {
                    &&& r matches Some(Read::Frame(frame))
                    &&& frame@ == old(self).buf@.subrange(0, n as int)
                    &&& *final(self) == *old(self)
                } else {
                    &&& r matches Some(Read::Oversized)
                    &&& *final(self) == (Capture {
                        oversized: (old(self).oversized + 1) as u64,
                        ..*old(self)
                    })
                },
            },
    {
        match received {
            None => None,
            Some(n) => {
                if n > self.buf.len() {
                    self.oversized = self.oversized + 1;
                    Some(Read::Oversized)
                } else {
                    Some(Read::Frame(vstd::slice::slice_subrange(self.buf.as_slice(), 0, n)))
                }
            },
        }
    }

    /// The oversized frames dropped since the last call, starting the count anew.
    pub fn take_oversized(&mut self) -> (r: u64)
        ensures
            r == old(self).oversized,
            *final(self) == (Capture { oversized: 0, ..*old(self) }),
    {
        let n: u64 = self.oversized;
        self.oversized = 0;
        n
    }
}

/// Where the opening of a capture stands: what is done next, or how it ended.
#[derive(Clone, Copy, PartialEq, Eq, Structural, Debug)]
pub enum OpenStage {
    ResolveIndex,
    CreateSocket,
    IgnoreOutgoing,
    AttachFilter,
    Bind,
    Open,
    Failed,
}

/// The opening of one capture.
#[derive(Clone, Copy, PartialEq, Eq, Structural, Debug)]
pub struct Opening {
    pub stage: OpenStage,
    /// Whether the kernel drops our own frames at the socket, so that the filter need not.
    pub ignores_outgoing: bool,
}

impl Opening {
    /// A capture not opened at all yet.
    pub open spec fn fresh() -> Self {
        Opening { stage: OpenStage::ResolveIndex, ignores_outgoing: false }
    }

    /// The stage after the current one was tried. Only a kernel that cannot ignore outgoing frames
    /// is worked around; any other failure ends the opening.
    pub open spec fn after(self, succeeded: bool) -> Self {
        match self.stage {
            OpenStage::ResolveIndex => self.step(succeeded, OpenStage::CreateSocket),
            OpenStage::CreateSocket => self.step(succeeded, OpenStage::IgnoreOutgoing),
            OpenStage::IgnoreOutgoing => Opening {
                stage: OpenStage::AttachFilter,
                ignores_outgoing: succeeded,
            },
            OpenStage::AttachFilter => self.step(succeeded, OpenStage::Bind),
            OpenStage::Bind => self.step(succeeded, OpenStage::Open),
            OpenStage::Open => self,
            OpenStage::Failed => self,
        }
    }

    pub open spec fn step(self, succeeded: bool, next: OpenStage) -> Self {
        Opening {
            stage: if succeeded {
                next
            } else {
                OpenStage::Failed
            },
            ..self
        }
    }

    /// Where an opening stands after its stages went as told.
    pub open spec fn run(results: Seq<bool>) -> Self
        decreases results.len(),
    {
        if results.len() == 0 {
            Opening::fresh()
        } else {
            Opening::run(results.drop_last()).after(results.last())
        }
    }

    /// Begin with the name.
    pub fn start() -> (r: Self)
        ensures
            r == Opening::fresh(),
    {
        Opening { stage: OpenStage::ResolveIndex, ignores_outgoing: false }
    }

    /// Go on from the current stage, given whether it succeeded.
    pub fn advance(&mut self, succeeded: bool)
        ensures
            *final(self) == old(self).after(succeeded),
    {
        let next = match self.stage {
            OpenStage::ResolveIndex => OpenStage::CreateSocket,
            OpenStage::CreateSocket => OpenStage::IgnoreOutgoing,
            OpenStage::IgnoreOutgoing => OpenStage::AttachFilter,
            OpenStage::AttachFilter => OpenStage::Bind,
            OpenStage::Bind => OpenStage::Open,
            OpenStage::Open => {
                return;
            },
            OpenStage::Failed => {
                return;
            },
        };
        if self.stage == OpenStage::IgnoreOutgoing {
            self.ignores_outgoing = succeeded;
            self.stage = next;
        } else if succeeded {
            self.stage = next;
        } else {
            self.stage = OpenStage::Failed;
        }
    }

    /// The filter to attach: the classifier alone where the kernel ignores outgoing frames, else
    /// behind the prologue that drops them.
    pub fn filter(&self, prologue: &[BpfInsn], classifier: &[BpfInsn]) -> (r: Vec<BpfInsn>)
        ensures
            r@ == if self.ignores_outgoing {
                classifier@
            } else {
                prologue@ + classifier@
            },
    {
        if self.ignores_outgoing {
            let filter = drop_outgoing_filter(&[], classifier);
            assert(filter@ =~= classifier@);
            filter
        } else {
            drop_outgoing_filter(prologue, classifier)
        }
    }
}

/// No opening reaches its bind, let alone completes, without having attached its filter first: the
/// last step before a bind was a successful attach, and the one before an open capture a successful
/// bind. No unfiltered frame can be queued in between.
pub proof fn law_the_filter_precedes_the_bind(results: Seq<bool>)
    ensures
        Opening::run(results).stage == OpenStage::Bind ==> results.len() > 0 && results.last()
            && Opening::run(results.drop_last()).stage == OpenStage::AttachFilter,
        Opening::run(results).stage == OpenStage::Open ==> exists|n: int|
            0 < n < results.len() && results[n] && #[trigger] Opening::run(
                results.take(n),
            ).stage == OpenStage::Bind,
    decreases results.len(),
{
    if results.len() > 0 {
        let before = results.drop_last();
        law_the_filter_precedes_the_bind(before);
        if Opening::run(results).stage == OpenStage::Open {
            if Opening::run(before).stage == OpenStage::Open {
                let n = choose|n: int|
                    0 < n < before.len() && before[n] && #[trigger] Opening::run(
                        before.take(n),
                    ).stage == OpenStage::Bind;
                assert(before.take(n) =~= results.take(n));
                assert(results[n]);
            } else {
                let n = before.len() as int;
                assert(results.take(n) =~= before);
                assert(results[n]);
            }
        }
    }
}

/// An opening whose steps all succeed, whatever became of ignoring outgoing frames, takes them in this
/// order: the name's index, the socket, ignoring outgoing frames, the filter, the bind. After the last it is
/// open, and stays so.
pub proof fn law_an_opening_takes_its_steps_in_order(results: Seq<bool>)
    requires
        forall|i: int| 0 <= i < results.len() && i != 2 && i < 5 ==> #[trigger] results[i],
    ensures
        results.len() == 0 ==> Opening::run(results).stage == OpenStage::ResolveIndex,
        results.len() == 1 ==> Opening::run(results).stage == OpenStage::CreateSocket,
        results.len() == 2 ==> Opening::run(results).stage == OpenStage::IgnoreOutgoing,
        results.len() == 3 ==> Opening::run(results).stage == OpenStage::AttachFilter,
        results.len() == 4 ==> Opening::run(results).stage == OpenStage::Bind,
        results.len() >= 5 ==> Opening::run(results).stage == OpenStage::Open,
        results.len() > 2 ==> Opening::run(results).ignores_outgoing == results[2],
        results.len() <= 2 ==> !Opening::run(results).ignores_outgoing,
    decreases results.len(),
{
    if results.len() > 0 {
        let before = results.drop_last();
        assert forall|i: int| 0 <= i < before.len() && i != 2 && i < 5 implies #[trigger] before[i] by {
            assert(before[i] == results[i]);
        }
        law_an_opening_takes_its_steps_in_order(before);
        assert(results.last() == results[results.len() - 1]);
        if results.len() > 3 {
            assert(before[2] == results[2]);
        }
    }
}

/// Any step but that of ignoring outgoing frames ends the opening if it fails, for good.
pub proof fn law_a_failed_step_ends_the_opening(results: Seq<bool>, at: int)
    requires
        0 <= at < results.len(),
        at < 5,
        at != 2,
        !results[at],
        forall|i: int| 0 <= i < at && i != 2 ==> #[trigger] results[i],
    ensures
        Opening::run(results).stage == OpenStage::Failed,
    decreases results.len(),
{
    let before = results.drop_last();
    if at < before.len() {
        assert forall|i: int| 0 <= i < at && i != 2 implies #[trigger] before[i] by {
            assert(before[i] == results[i]);
        }
        law_a_failed_step_ends_the_opening(before, at);
    } else {
        assert forall|i: int| 0 <= i < before.len() && i != 2 && i < 5 implies #[trigger] before[i] by {
            assert(before[i] == results[i]);
        }
        law_an_opening_takes_its_steps_in_order(before);
    }
}

/// The words for an index error name the interface that was not found, and no interface otherwise.
pub proof fn law_an_index_error_names_the_missing_interface(name: Seq<char>)
    ensures
        ({
            let text = IndexError::NotFound.text(name);
            let (before, after) = ("interface "@, " not found"@);
            &&& text.len() == before.len() + name.len() + after.len()
            &&& text.subrange(0, before.len() as int) == before
            &&& text.subrange(before.len() as int, (before.len() + name.len()) as int) == name
            &&& text.subrange((before.len() + name.len()) as int, text.len() as int) == after
        }),
        IndexError::TooLarge.text(name) == "interface index too large"@,
{
    let text = IndexError::NotFound.text(name);
    let (before, after) = ("interface "@, " not found"@);
    assert(text.subrange(0, before.len() as int) =~= before);
    assert(text.subrange(before.len() as int, (before.len() + name.len()) as int) =~= name);
    assert(text.subrange((before.len() + name.len()) as int, text.len() as int) =~= after);
}

}
