//! One connection's session: authentication first, commands after.
//!
//! The session makes every decision of a connection and performs none of its
//! effects. It is told which bytes arrived and answers with the next thing to
//! do: read more, write a response, run a command, close.

use vstd::prelude::*;

use crate::framing::{frame_status, FrameBuffer, FrameStatus};
use crate::framing::{lemma_complete_frame_is_well_framed, lemma_written_frame_is_cut};
use crate::packet::lemma_decode_encode;
use crate::packet::{decode, encode, DecodeError, PacketView, RconPacket};
use crate::wire::i32_to_le;

verus! {

/// Type code of an authentication request.
pub const TYPE_AUTH: i32 = 3;

/// Type code of a command request.
pub const TYPE_COMMAND: i32 = 2;

/// Type code of every response. The protocol gives it the value of
/// [`TYPE_COMMAND`].
pub const TYPE_RESPONSE: i32 = 2;

/// The id of the response to a failed authentication.
pub const AUTH_FAILURE_ID: i32 = -1;

/// What the server says to a request. The three kinds look alike on the wire
/// but for the id: each is a packet of type [`TYPE_RESPONSE`] with an empty
/// body.
#[derive(Debug, Clone, Copy, PartialEq, Eq, Structural)]
pub enum Response {
    /// The secret matched; carries the id of the request.
    AuthOk { id: i32 },
    /// The secret did not match; goes out under [`AUTH_FAILURE_ID`].
    AuthFail,
    /// A command was received; carries the id of the request.
    CommandAck { id: i32 },
}

/// Why a session ends.
#[derive(Debug, Clone, Copy, PartialEq, Eq, Structural)]
pub enum CloseReason {
    /// The peer closed the connection: a read returned no bytes.
    PeerClosed,
    /// The bytes received are not a frame.
    Decode(DecodeError),
    /// The client sent the wrong secret.
    AuthenticationFailed,
    /// A packet of a type that the state of the session does not allow.
    ProtocolViolation,
}

/// The next thing that the owner of the connection has to do.
#[derive(Debug, PartialEq, Eq)]
pub enum Step {
    /// Read from the stream and pass what arrived to [`Session::on_read`].
    Read,
    /// Write the response.
    Reply { response: Response },
    /// Hand the command to the command handler, then write the response.
    Execute { command: String, response: Response },
    /// Write the last response, if there is one, then close the connection.
    Close { last_response: Option<Response>, reason: CloseReason },
}

/// A [`Step`] as a mathematical value.
pub enum StepView {
    Read,
    Reply { response: Response },
    Execute { command: Seq<char>, response: Response },
    Close { last_response: Option<Response>, reason: CloseReason },
}

impl View for Step {
    type V = StepView;

    open spec fn view(&self) -> StepView {
        match *self {
            Step::Read => StepView::Read,
            Step::Reply { response } => StepView::Reply { response },
            Step::Execute { command, response } => StepView::Execute {
                command: command@,
                response,
            },
            Step::Close { last_response, reason } => StepView::Close { last_response, reason },
        }
    }
}

impl Response {
    /// The id under which the response goes out.
    pub open spec fn wire_id(self) -> i32 {
        match self {
            Response::AuthOk { id } => id,
            Response::AuthFail => AUTH_FAILURE_ID,
            Response::CommandAck { id } => id,
        }
    }

    /// The packet that carries the response.
    pub open spec fn packet(self) -> PacketView {
        PacketView { id: self.wire_id(), packet_type: TYPE_RESPONSE, body: Seq::<char>::empty() }
    }

    /// The id under which the response goes out.
    pub fn id(&self) -> (id: i32)
        ensures
            id == self.wire_id(),
    {
        match self {
            Response::AuthOk { id } => *id,
            Response::AuthFail => AUTH_FAILURE_ID,
            Response::CommandAck { id } => *id,
        }
    }

    /// The packet that carries the response.
    pub fn to_packet(&self) -> (p: RconPacket)
        ensures
            p@ == self.packet(),
    {
        RconPacket::new(self.id(), TYPE_RESPONSE, String::new())
    }

    /// The frame that carries the response, which is what goes to the
    /// stream: a size field of 10, the id, the type 2 and the two terminators.
    pub fn to_bytes(&self) -> (out: Vec<u8>)
        ensures
            out@ == encode(self.packet()),
            out@ == seq![10u8, 0u8, 0u8, 0u8] + i32_to_le(self.wire_id()) + seq![
                2u8,
                0u8,
                0u8,
                0u8,
                0u8,
                0u8,
            ],
    {
        let p = self.to_packet();
        assert(p@.body_bytes() =~= Seq::<u8>::empty());
        let out = p.serialize();
        assert(out@ =~= seq![10u8, 0u8, 0u8, 0u8] + i32_to_le(self.wire_id()) + seq![
            2u8,
            0u8,
            0u8,
            0u8,
            0u8,
            0u8,
        ]);
        out
    }
}

/// What a session does with one packet: whether it is authenticated
/// afterwards, and the step it answers with.
pub open spec fn dispatch(authenticated: bool, secret: Seq<char>, p: PacketView) -> (
    bool,
    StepView,
) {
    if p.packet_type == TYPE_AUTH && !authenticated {
        if p.body == secret {
            (true, StepView::Reply { response: Response::AuthOk { id: p.id } })
        } else {
            (
                false,
                StepView::Close {
                    last_response: Some(Response::AuthFail),
                    reason: CloseReason::AuthenticationFailed,
                },
            )
        }
    } else if p.packet_type == TYPE_COMMAND && authenticated {
        (true, StepView::Execute { command: p.body, response: Response::CommandAck { id: p.id } })
    } else {
        (
            authenticated,
            StepView::Close { last_response: None, reason: CloseReason::ProtocolViolation },
        )
    }
}

/// A session as a mathematical value.
pub struct SessionView {
    /// The shared secret that the session was made with.
    pub secret: Seq<char>,
    /// Whether the client has authenticated.
    pub authenticated: bool,
    /// The bytes that arrived and were not yet consumed.
    pub pending: Seq<u8>,
}

/// One step of a session: the session afterwards and the step it answers
/// with. A whole frame at the front of the pending bytes is consumed, decoded
/// and dispatched; without one the session waits, or gives up on a size field
/// that no frame can have.
pub open spec fn advance(s: SessionView) -> (SessionView, StepView) {
    match frame_status(s.pending) {
        FrameStatus::Incomplete => (s, StepView::Read),
        FrameStatus::Malformed => (
            s,
            StepView::Close {
                last_response: None,
                reason: CloseReason::Decode(DecodeError::MalformedPacket),
            },
        ),
        FrameStatus::Complete(n) => {
            let rest = s.pending.subrange(n, s.pending.len() as int);
            match decode(s.pending.subrange(0, n)) {
                Err(e) => (
                    SessionView { pending: rest, ..s },
                    StepView::Close { last_response: None, reason: CloseReason::Decode(e) },
                ),
                Ok(p) => {
                    let (authenticated, step) = dispatch(s.authenticated, s.secret, p);
                    (SessionView { authenticated, pending: rest, ..s }, step)
                },
            }
        },
    }
}

/// Whether the session goes on by itself after `step`: it does after the
/// answer to a request that it accepted.
pub open spec fn goes_on(step: StepView) -> bool {
    step is Reply || step is Execute
}

/// Everything that a session does with the bytes it holds: it takes step
/// after step until it has to read again or to close. The steps are listed in
/// the order in which they are to be performed.
pub open spec fn run(s: SessionView) -> (SessionView, Seq<StepView>)
    decreases s.pending.len(),
{
    let (next, step) = advance(s);
    if goes_on(step) {
        let (last, steps) = run(next);
        (last, seq![step] + steps)
    } else {
        (next, seq![step])
    }
}

/// The views of a list of steps.
pub open spec fn step_views(steps: Seq<Step>) -> Seq<StepView> {
    steps.map_values(|step: Step| step@)
}

/// What a session does when a read returned `chunk`: on an empty chunk it
/// closes, for the peer has closed; else it takes the chunk in and runs.
pub open spec fn on_read(s: SessionView, chunk: Seq<u8>) -> (SessionView, Seq<StepView>) {
    if chunk.len() == 0 {
        (s, seq![StepView::Close { last_response: None, reason: CloseReason::PeerClosed }])
    } else {
        run(SessionView { pending: s.pending + chunk, ..s })
    }
}

/// The protocol state of one client connection.
pub struct Session {
    secret: String,
    authenticated: bool,
    inbox: FrameBuffer,
}

impl View for Session {
    type V = SessionView;

    closed spec fn view(&self) -> SessionView {
        SessionView {
            secret: self.secret@,
            authenticated: self.authenticated,
            pending: self.inbox@,
        }
    }
}

impl Session {
    /// A session for a connection that was just accepted: not authenticated,
    /// nothing received.
    pub fn new(secret: String) -> (session: Session)
        ensures
            session@ == (SessionView {
                secret: secret@,
                authenticated: false,
                pending: Seq::<u8>::empty(),
            }),
    {
        Session { secret, authenticated: false, inbox: FrameBuffer::new() }
    }

    /// Whether the client has authenticated.
    pub fn is_authenticated(&self) -> (yes: bool)
        ensures
            yes == self@.authenticated,
    {
        self.authenticated
    }

    /// The number of bytes that arrived and were not yet consumed.
    pub fn pending_len(&self) -> (n: usize)
        ensures
            n == self@.pending.len(),
    {
        self.inbox.len()
    }

    /// Takes in what one read from the stream returned. The answer is whether
    /// the connection is still open: a read of no bytes means that the peer
    /// has closed it.
    pub fn receive(&mut self, chunk: &[u8]) -> (open: bool)
        ensures
            open == (chunk@.len() > 0),
            final(self)@ == (SessionView { pending: old(self)@.pending + chunk@, ..old(self)@ }),
    {
        self.inbox.push(chunk);
        chunk.len() > 0
    }

    /// Decides what to do with one packet.
    pub fn dispatch(&mut self, packet: RconPacket) -> (step: Step)
        ensures
            (final(self)@.authenticated, step@) == dispatch(
                old(self)@.authenticated,
                old(self)@.secret,
                packet@,
            ),
            final(self)@.secret == old(self)@.secret,
            final(self)@.pending == old(self)@.pending,
            old(self)@.authenticated ==> final(self)@.authenticated,
            step is Execute ==> old(self)@.authenticated,
    {
        if packet.packet_type == TYPE_AUTH && !self.authenticated {
            if packet.body == self.secret {
                self.authenticated = true;
                Step::Reply { response: Response::AuthOk { id: packet.id } }
            } else {
                Step::Close {
                    last_response: Some(Response::AuthFail),
                    reason: CloseReason::AuthenticationFailed,
                }
            }
        } else if packet.packet_type == TYPE_COMMAND && self.authenticated {
            Step::Execute {
                command: packet.body,
                response: Response::CommandAck { id: packet.id },
            }
        } else {
            Step::Close { last_response: None, reason: CloseReason::ProtocolViolation }
        }
    }

    /// Decides the next step from the bytes received so far.
    pub fn advance(&mut self) -> (step: Step)
        ensures
            (final(self)@, step@) == advance(old(self)@),
            final(self)@.secret == old(self)@.secret,
            old(self)@.authenticated ==> final(self)@.authenticated,
            step is Execute ==> old(self)@.authenticated,
    {
        match self.inbox.next_frame() {
            Ok(None) => Step::Read,
            Err(e) => Step::Close { last_response: None, reason: CloseReason::Decode(e) },
            Ok(Some(frame)) => {
                match RconPacket::deserialize(frame.as_slice()) {
                    Ok(packet) => self.dispatch(packet),
                    Err(e) => Step::Close { last_response: None, reason: CloseReason::Decode(e) },
                }
            },
        }
    }

    /// Decides everything that follows from one read of the stream. The steps
    /// are to be performed in order; the last one says whether to read again
    /// or to close.
    pub fn on_read(&mut self, chunk: &[u8]) -> (steps: Vec<Step>)
        ensures
            (final(self)@, step_views(steps@)) == on_read(old(self)@, chunk@),
            final(self)@.secret == old(self)@.secret,
            old(self)@.authenticated ==> final(self)@.authenticated,
    {
        let mut steps: Vec<Step> = Vec::new();
        if !self.receive(chunk) {
            steps.push(Step::Close { last_response: None, reason: CloseReason::PeerClosed });
            assert(step_views(steps@) =~= seq![
                StepView::Close { last_response: None, reason: CloseReason::PeerClosed },
            ]);
            return steps;
        }
        let ghost start = self@;
        assert(step_views(steps@) + run(self@).1 =~= run(start).1);
        loop
            invariant_except_break
                run(start) == (run(self@).0, step_views(steps@) + run(self@).1),
            invariant
                self@.secret == start.secret,
                start.authenticated ==> self@.authenticated,
            ensures
                (self@, step_views(steps@)) == run(start),
            decreases self@.pending.len(),
        {
            let ghost before = self@;
            let ghost done = step_views(steps@);
            let step = self.advance();
            let stop = match step {
                Step::Reply { .. } => false,
                Step::Execute { .. } => false,
                _ => true,
            };
            proof {
                lemma_progress(before);
            }
            steps.push(step);
            assert(step_views(steps@) =~= done.push(step@));
            if stop {
                assert(done + run(before).1 =~= step_views(steps@));
                break ;
            }
            assert(done + run(before).1 =~= step_views(steps@) + run(self@).1);
        }
        steps
    }
}

/// A step after which the session goes on has consumed a frame.
pub proof fn lemma_progress(s: SessionView)
    ensures
        goes_on(advance(s).1) ==> advance(s).0.pending.len() + 14 <= s.pending.len(),
        advance(s).0.pending.len() <= s.pending.len(),
        advance(s).0.secret == s.secret,
{
    if frame_status(s.pending) is Complete {
        lemma_complete_frame_is_well_framed(s.pending);
    }
}

/// An authentication request that carries the secret authenticates the
/// session and is answered under its own id.
pub proof fn lemma_auth_success(secret: Seq<char>, id: i32)
    ensures
        dispatch(false, secret, PacketView { id, packet_type: TYPE_AUTH, body: secret }) == (
            true,
            StepView::Reply { response: Response::AuthOk { id } },
        ),
        (Response::AuthOk { id }).packet() == (PacketView {
            id,
            packet_type: 2,
            body: Seq::<char>::empty(),
        }),
{
}

/// An authentication request that carries anything but the secret is
/// answered under the id -1, and the session closes unauthenticated.
pub proof fn lemma_auth_failure(secret: Seq<char>, p: PacketView)
    requires
        p.packet_type == TYPE_AUTH,
        p.body != secret,
    ensures
        dispatch(false, secret, p) == (
            false,
            StepView::Close {
                last_response: Some(Response::AuthFail),
                reason: CloseReason::AuthenticationFailed,
            },
        ),
        Response::AuthFail.packet() == (PacketView {
            id: -1i32,
            packet_type: 2,
            body: Seq::<char>::empty(),
        }),
{
}

/// Before authentication a command is a protocol violation, whatever its
/// body: the session closes at once, without a response.
pub proof fn lemma_command_needs_authentication(secret: Seq<char>, p: PacketView)
    requires
        p.packet_type == TYPE_COMMAND,
    ensures
        dispatch(false, secret, p) == (
            false,
            StepView::Close { last_response: None, reason: CloseReason::ProtocolViolation },
        ),
{
}

/// After authentication a command goes to the command handler once, and is
/// answered under its own id.
pub proof fn lemma_command_is_acknowledged(secret: Seq<char>, p: PacketView)
    requires
        p.packet_type == TYPE_COMMAND,
    ensures
        dispatch(true, secret, p) == (
            true,
            StepView::Execute { command: p.body, response: Response::CommandAck { id: p.id } },
        ),
        (Response::CommandAck { id: p.id }).packet() == (PacketView {
            id: p.id,
            packet_type: 2,
            body: Seq::<char>::empty(),
        }),
{
}

/// Nothing but the secret authenticates, and no command reaches the handler
/// before that.
pub proof fn lemma_secret_guards_commands(authenticated: bool, secret: Seq<char>, p: PacketView)
    ensures
        dispatch(authenticated, secret, p).1 is Execute ==> authenticated,
        !authenticated && dispatch(authenticated, secret, p).0 ==> p.packet_type == TYPE_AUTH
            && p.body == secret,
{
}

/// A session that is authenticated stays so, whatever arrives.
pub proof fn lemma_authentication_is_kept(s: SessionView)
    requires
        s.authenticated,
    ensures
        forall|p: PacketView| #[trigger] dispatch(true, s.secret, p).0,
        advance(s).0.authenticated,
        run(s).0.authenticated,
    decreases s.pending.len(),
{
    lemma_progress(s);
    if goes_on(advance(s).1) {
        lemma_authentication_is_kept(advance(s).0);
    }
}

/// A request that has arrived whole is consumed and answered as
/// [`dispatch`] says; what follows it in the stream stays.
pub proof fn lemma_request_is_dispatched(s: SessionView, p: PacketView, rest: Seq<u8>)
    requires
        p.declared_size() <= i32::MAX,
        s.pending == encode(p) + rest,
    ensures
        advance(s) == (
            SessionView {
                authenticated: dispatch(s.authenticated, s.secret, p).0,
                pending: rest,
                ..s
            },
            dispatch(s.authenticated, s.secret, p).1,
        ),
{
    lemma_written_frame_is_cut(p, rest);
    lemma_decode_encode(p);
}

/// A run is a row of answers to accepted requests, ended by one step that
/// says to read again or to close. Nothing is done after a close.
pub proof fn lemma_run_ends_once(s: SessionView)
    ensures
        run(s).1.len() >= 1,
        !goes_on(run(s).1.last()),
        forall|i: int| 0 <= i < run(s).1.len() - 1 ==> goes_on(#[trigger] run(s).1[i]),
    decreases s.pending.len(),
{
    lemma_progress(s);
    if goes_on(advance(s).1) {
        lemma_run_ends_once(advance(s).0);
    }
}

} // verus!
