//! The connection actor, as a state machine: `Connecting`, then `Active`
//! (`Busy` while the handler works on one of its envelopes), then
//! `Terminating` and `Closed`. The driver performs the actions it returns
//! and hands back what happened as events.

use vstd::prelude::*;

use crate::address::Address;
use crate::commands::{ConnCMD, ServerCMD};
use crate::handler::{HandlerJob, HandlerReply};
use crate::message::Message;

verus! {

/// Where a connection actor stands in its life.
#[derive(Clone, Copy, Debug, PartialEq, Eq, Structural)]
pub enum Phase {
    /// Waiting for the handler to take note of the connection.
    Connecting,
    /// Waiting for a command or for bytes from the peer.
    Active,
    /// Waiting for the handler's response to an envelope.
    Busy,
    /// Waiting for the handler to take note of the disconnection.
    Terminating,
    /// Done: the socket is released.
    Closed,
}

/// What happened to a connection actor.
#[derive(Debug)]
pub enum ConnEvent {
    /// A command from the server.
    Command(ConnCMD),
    /// A frame from the peer that decoded to an envelope.
    Envelope(Message),
    /// A frame from the peer that did not decode.
    Malformed,
    /// The peer closed its side (a read of zero bytes).
    PeerClosed,
    /// Reading from the peer failed.
    ReadFailed,
    /// Writing to the peer failed.
    WriteFailed,
    /// The handler answered the actor's pending call.
    Reply(HandlerReply),
}

/// What a connection actor asks its driver to do, in order.
#[derive(Debug)]
pub enum ConnAction {
    /// Run this call on the handler and hand back its reply.
    Call(HandlerJob),
    /// Encode this envelope and write it to the peer.
    Write(Message),
    /// Send this command to the server.
    Forward(ServerCMD),
    /// Release the socket; the actor is finished.
    Release,
}

/// The actions that forward the handler's optional command to the server.
pub open spec fn forward(cmd: Option<ServerCMD>) -> Seq<ConnAction> {
    match cmd {
        Some(c) => seq![ConnAction::Forward(c)],
        None => Seq::empty(),
    }
}

/// The actor's ways out of `Active`: a kick, the peer closing, a failed
/// read or a failed write.
pub open spec fn is_exit(ev: ConnEvent) -> bool {
    match ev {
        ConnEvent::Command(ConnCMD::Kick) => true,
        ConnEvent::PeerClosed => true,
        ConnEvent::ReadFailed => true,
        ConnEvent::WriteFailed => true,
        _ => false,
    }
}

/// One transition of the actor for the peer at `addr`: the next phase and
/// the actions. An event that its phase does not wait for changes nothing.
pub open spec fn step_spec(addr: Address, phase: Phase, ev: ConnEvent) -> (Phase, Seq<ConnAction>) {
    match phase {
        Phase::Connecting => match ev {
            ConnEvent::Reply(HandlerReply::Connected(c)) => (Phase::Active, forward(c)),
            _ => (phase, Seq::empty()),
        },
        Phase::Active => if is_exit(ev) {
            (Phase::Terminating, seq![ConnAction::Call(HandlerJob::Disconnect(addr))])
        } else {
            match ev {
                ConnEvent::Command(ConnCMD::Send(m)) => (Phase::Active, seq![ConnAction::Write(m)]),
                ConnEvent::Envelope(m) => (
                    Phase::Busy,
                    seq![ConnAction::Call(HandlerJob::Request(m, addr))],
                ),
                _ => (phase, Seq::empty()),
            }
        },
        Phase::Busy => match ev {
            ConnEvent::Reply(HandlerReply::Responded(resp, c)) => (
                Phase::Active,
                seq![ConnAction::Write(resp)] + forward(c),
            ),
            _ => (phase, Seq::empty()),
        },
        Phase::Terminating => match ev {
            ConnEvent::Reply(HandlerReply::Disconnected(c)) => (
                Phase::Closed,
                forward(c).push(ConnAction::Release),
            ),
            _ => (phase, Seq::empty()),
        },
        Phase::Closed => (phase, Seq::empty()),
    }
}

/// The phase of an actor for `addr` after the events `evs`, and every
/// action it asked for, the call made on its creation first.
pub open spec fn run(addr: Address, evs: Seq<ConnEvent>) -> (Phase, Seq<ConnAction>)
    decreases evs.len(),
{
    if evs.len() == 0 {
        (Phase::Connecting, seq![ConnAction::Call(HandlerJob::Connect(addr))])
    } else {
        let prev = run(addr, evs.drop_last());
        let next = step_spec(addr, prev.0, evs.last());
        (next.0, prev.1 + next.1)
    }
}

/// The handler calls among `acts`, in order.
pub open spec fn calls_of(acts: Seq<ConnAction>) -> Seq<HandlerJob>
    decreases acts.len(),
{
    if acts.len() == 0 {
        Seq::empty()
    } else {
        let prev = calls_of(acts.drop_last());
        match acts.last() {
            ConnAction::Call(j) => prev.push(j),
            _ => prev,
        }
    }
}

/// The envelopes handed to the handler by the calls `calls`, in order.
pub open spec fn requests_of(calls: Seq<HandlerJob>) -> Seq<Message>
    decreases calls.len(),
{
    if calls.len() == 0 {
        Seq::empty()
    } else {
        let prev = requests_of(calls.drop_last());
        match calls.last() {
            HandlerJob::Request(m, _) => prev.push(m),
            _ => prev,
        }
    }
}

/// The decoded envelopes among the events `evs`, in order.
pub open spec fn envelopes_of(evs: Seq<ConnEvent>) -> Seq<Message>
    decreases evs.len(),
{
    if evs.len() == 0 {
        Seq::empty()
    } else {
        let prev = envelopes_of(evs.drop_last());
        match evs.last() {
            ConnEvent::Envelope(m) => prev.push(m),
            _ => prev,
        }
    }
}

/// The driver hands the actor an envelope only while it is `Active`, that
/// is, it waits for each handler reply before it reads on.
pub open spec fn paced(addr: Address, evs: Seq<ConnEvent>) -> bool
    decreases evs.len(),
{
    evs.len() == 0 || {
        &&& paced(addr, evs.drop_last())
        &&& (evs.last() is Envelope ==> run(addr, evs.drop_last()).0 == Phase::Active)
    }
}

/// The phase has been left for good: the disconnection call was made.
pub open spec fn is_ending(phase: Phase) -> bool {
    phase == Phase::Terminating || phase == Phase::Closed
}

/// The calls of an actor for `addr` in `phase`: its connection first, then
/// its requests, then its disconnection once it is ending.
pub open spec fn paired_calls(addr: Address, phase: Phase, calls: Seq<HandlerJob>) -> bool {
    &&& calls.len() >= 1
    &&& calls[0] == HandlerJob::Connect(addr)
    &&& is_ending(phase) ==> calls.len() >= 2 && calls.last() == HandlerJob::Disconnect(addr)
    &&& forall|i: int|
        0 < i < calls.len() && !(is_ending(phase) && i == calls.len() - 1) ==> (
        #[trigger] calls[i] matches HandlerJob::Request(_, o) && o == addr)
}

proof fn lemma_calls_append(a: Seq<ConnAction>, b: Seq<ConnAction>)
    ensures
        calls_of(a + b) == calls_of(a) + calls_of(b),
    decreases b.len(),
{
    if b.len() == 0 {
        assert(a + b =~= a);
        assert(calls_of(a) + calls_of(b) =~= calls_of(a));
    } else {
        lemma_calls_append(a, b.drop_last());
        assert((a + b).drop_last() =~= a + b.drop_last());
        assert((a + b).last() == b.last());
        assert(calls_of(a) + calls_of(b.drop_last()).push(b.last()->Call_0) =~= (calls_of(a)
            + calls_of(b.drop_last())).push(b.last()->Call_0));
    }
}

proof fn lemma_requests_append(a: Seq<HandlerJob>, b: Seq<HandlerJob>)
    ensures
        requests_of(a + b) == requests_of(a) + requests_of(b),
    decreases b.len(),
{
    if b.len() == 0 {
        assert(a + b =~= a);
        assert(requests_of(a) + requests_of(b) =~= requests_of(a));
    } else {
        lemma_requests_append(a, b.drop_last());
        assert((a + b).drop_last() =~= a + b.drop_last());
        assert((a + b).last() == b.last());
        if let HandlerJob::Request(m, _) = b.last() {
            assert(requests_of(a) + requests_of(b.drop_last()).push(m) =~= (requests_of(a)
                + requests_of(b.drop_last())).push(m));
        }
    }
}

proof fn lemma_calls_single(a: ConnAction)
    ensures
        calls_of(seq![a]) == match a {
            ConnAction::Call(j) => seq![j],
            _ => Seq::<HandlerJob>::empty(),
        },
{
    assert(seq![a].drop_last() =~= Seq::<ConnAction>::empty());
    assert(calls_of(Seq::<ConnAction>::empty()) == Seq::<HandlerJob>::empty());
    assert(Seq::<HandlerJob>::empty().push(a->Call_0) =~= seq![a->Call_0]);
}

proof fn lemma_requests_single(j: HandlerJob)
    ensures
        requests_of(seq![j]) == match j {
            HandlerJob::Request(m, _) => seq![m],
            _ => Seq::<Message>::empty(),
        },
{
    assert(seq![j].drop_last() =~= Seq::<HandlerJob>::empty());
    assert(requests_of(Seq::<HandlerJob>::empty()) == Seq::<Message>::empty());
    assert(Seq::<Message>::empty().push(j->Request_0) =~= seq![j->Request_0]);
}

proof fn lemma_forward_calls(c: Option<ServerCMD>)
    ensures
        calls_of(forward(c)) == Seq::<HandlerJob>::empty(),
{
    if let Some(cmd) = c {
        lemma_calls_single(ConnAction::Forward(cmd));
    }
}

/// The handler calls that one step adds.
proof fn lemma_step_calls(addr: Address, phase: Phase, ev: ConnEvent)
    ensures
        ({
            let next = step_spec(addr, phase, ev);
            let added = calls_of(next.1);
            &&& phase == Phase::Active && is_exit(ev) ==> added == seq![HandlerJob::Disconnect(addr)]
            &&& phase == Phase::Active && ev is Envelope ==> added == seq![
                HandlerJob::Request(ev->Envelope_0, addr),
            ]
            &&& !(phase == Phase::Active && (is_exit(ev) || ev is Envelope)) ==> added
                == Seq::<HandlerJob>::empty()
        }),
{
    assert(calls_of(Seq::<ConnAction>::empty()) == Seq::<HandlerJob>::empty());
    match ev {
        ConnEvent::Reply(HandlerReply::Connected(c)) => {
            lemma_forward_calls(c);
        },
        ConnEvent::Reply(HandlerReply::Responded(resp, c)) => {
            lemma_forward_calls(c);
            lemma_calls_append(seq![ConnAction::Write(resp)], forward(c));
            lemma_calls_single(ConnAction::Write(resp));
        },
        ConnEvent::Reply(HandlerReply::Disconnected(c)) => {
            lemma_forward_calls(c);
            assert(forward(c).push(ConnAction::Release).drop_last() =~= forward(c));
        },
        ConnEvent::Command(ConnCMD::Send(m)) => {
            lemma_calls_single(ConnAction::Write(m));
        },
        ConnEvent::Envelope(m) => {
            lemma_calls_single(ConnAction::Call(HandlerJob::Request(m, addr)));
        },
        _ => {
        },
    }
    if phase == Phase::Active && is_exit(ev) {
        lemma_calls_single(ConnAction::Call(HandlerJob::Disconnect(addr)));
    }
}

/// Connect and disconnect calls are paired: whatever happens to the actor
/// for `addr`, its first handler call is `client_connect(addr)` and no later
/// call is a connection; every call in between is a request from `addr`;
/// `client_disconnect(addr)` comes exactly once, as the last call, as soon
/// as the actor is terminating (by a kick, the peer closing, a failed read
/// or write), and never before.
pub proof fn lemma_connect_disconnect_paired(addr: Address, evs: Seq<ConnEvent>)
    ensures
        paired_calls(addr, run(addr, evs).0, calls_of(run(addr, evs).1)),
    decreases evs.len(),
{
    if evs.len() == 0 {
        lemma_calls_single(ConnAction::Call(HandlerJob::Connect(addr)));
    } else {
        let prev = run(addr, evs.drop_last());
        let next = step_spec(addr, prev.0, evs.last());
        lemma_connect_disconnect_paired(addr, evs.drop_last());
        lemma_calls_append(prev.1, next.1);
        lemma_step_calls(addr, prev.0, evs.last());
        let before = calls_of(prev.1);
        let after = calls_of(prev.1 + next.1);
        if prev.0 == Phase::Active && (is_exit(evs.last()) || evs.last() is Envelope) {
            assert forall|i: int|
                0 < i < after.len() && !(is_ending(next.0) && i == after.len() - 1) implies (
            #[trigger] after[i] matches HandlerJob::Request(_, o) && o == addr) by {
                if i < before.len() {
                    assert(after[i] == before[i]);
                }
            }
        } else {
            assert(after =~= before);
        }
    }
}

/// Requests follow the decoded envelopes: when the driver hands the actor
/// envelopes only while it is ready for one, the envelopes given to the
/// handler are exactly the decoded ones, in the order they arrived. Frames
/// that did not decode add nothing and change nothing.
pub proof fn lemma_requests_follow_envelopes(addr: Address, evs: Seq<ConnEvent>)
    requires
        paced(addr, evs),
    ensures
        requests_of(calls_of(run(addr, evs).1)) == envelopes_of(evs),
    decreases evs.len(),
{
    if evs.len() == 0 {
        lemma_calls_single(ConnAction::Call(HandlerJob::Connect(addr)));
        lemma_requests_single(HandlerJob::Connect(addr));
    } else {
        let prev = run(addr, evs.drop_last());
        let next = step_spec(addr, prev.0, evs.last());
        lemma_requests_follow_envelopes(addr, evs.drop_last());
        lemma_calls_append(prev.1, next.1);
        lemma_step_calls(addr, prev.0, evs.last());
        lemma_requests_append(calls_of(prev.1), calls_of(next.1));
        let added = calls_of(next.1);
        if prev.0 == Phase::Active && evs.last() is Envelope {
            lemma_requests_single(HandlerJob::Request(evs.last()->Envelope_0, addr));
        } else if prev.0 == Phase::Active && is_exit(evs.last()) {
            lemma_requests_single(HandlerJob::Disconnect(addr));
        } else {
            assert(requests_of(added) =~= Seq::<Message>::empty());
        }
        assert(requests_of(calls_of(prev.1)) + requests_of(added) =~= envelopes_of(evs));
    }
}

/// One connection actor, for the peer at one address.
pub struct Conn {
    addr: Address,
    phase: Phase,
}

impl View for Conn {
    type V = (Address, Phase);

    closed spec fn view(&self) -> (Address, Phase) {
        (self.addr, self.phase)
    }
}

impl Conn {
    /// The actor for a newly accepted peer at `addr`, and the handler call
    /// that it needs before anything else: `client_connect(addr)`.
    pub fn new(addr: Address) -> (r: (Conn, HandlerJob))
        ensures
            r.0@ == (addr, Phase::Connecting),
            r.1 == HandlerJob::Connect(addr),
    {
        (Conn { addr, phase: Phase::Connecting }, HandlerJob::Connect(addr))
    }

    /// The address of the actor's peer.
    pub fn get_addr(&self) -> (r: Address)
        ensures
            r == self@.0,
    {
        self.addr
    }

    /// The actor's phase.
    pub fn phase(&self) -> (r: Phase)
        ensures
            r == self@.1,
    {
        self.phase
    }

    /// The actor is finished and its socket released.
    pub fn is_closed(&self) -> (r: bool)
        ensures
            r == (self@.1 == Phase::Closed),
    {
        self.phase == Phase::Closed
    }

    /// Takes one event and returns the actions it calls for, in order.
    pub fn step(&mut self, ev: ConnEvent) -> (r: Vec<ConnAction>)
        ensures
            final(self)@.0 == old(self)@.0,
            (final(self)@.1, r@) == step_spec(old(self)@.0, old(self)@.1, ev),
    {
        let ghost ev0 = ev;
        let addr = self.addr;
        let mut acts: Vec<ConnAction> = Vec::new();
        match self.phase {
            Phase::Connecting => {
                if let ConnEvent::Reply(HandlerReply::Connected(c)) = ev {
                    push_forward(&mut acts, c);
                    self.phase = Phase::Active;
                }
            },
            Phase::Active => {
                match ev {
                    ConnEvent::Command(ConnCMD::Send(m)) => {
                        acts.push(ConnAction::Write(m));
                    },
                    ConnEvent::Envelope(m) => {
                        acts.push(ConnAction::Call(HandlerJob::Request(m, addr)));
                        self.phase = Phase::Busy;
                    },
                    ConnEvent::Command(ConnCMD::Kick) | ConnEvent::PeerClosed
                    | ConnEvent::ReadFailed | ConnEvent::WriteFailed => {
                        acts.push(ConnAction::Call(HandlerJob::Disconnect(addr)));
                        self.phase = Phase::Terminating;
                    },
                    _ => {},
                }
            },
            Phase::Busy => {
                if let ConnEvent::Reply(HandlerReply::Responded(resp, c)) = ev {
                    acts.push(ConnAction::Write(resp));
                    push_forward(&mut acts, c);
                    self.phase = Phase::Active;
                }
            },
            Phase::Terminating => {
                if let ConnEvent::Reply(HandlerReply::Disconnected(c)) = ev {
                    push_forward(&mut acts, c);
                    acts.push(ConnAction::Release);
                    self.phase = Phase::Closed;
                }
            },
            Phase::Closed => {},
        }
        proof {
            let expect = step_spec(addr, old(self)@.1, ev0);
            assert(acts@ =~= expect.1);
        }
        acts
    }
}

/// Appends to `acts` the forwarding of the handler's optional command.
fn push_forward(acts: &mut Vec<ConnAction>, cmd: Option<ServerCMD>)
    ensures
        final(acts)@ == old(acts)@ + forward(cmd),
{
    if let Some(c) = cmd {
        acts.push(ConnAction::Forward(c));
    }
    assert(final(acts)@ =~= old(acts)@ + forward(cmd));
}

} // verus!
