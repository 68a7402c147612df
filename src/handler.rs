//! The handler capability that an embedding application implements, and the
//! host that serializes every call into it.

use vstd::prelude::*;

use crate::address::Address;
use crate::commands::ServerCMD;
use crate::message::Message;

verus! {

/// The application's request processing. The server reaches it through one
/// `HandlerHost`, so it needs no synchronization of its own.
pub trait RequestHandler: Sized {
    /// `reply` is what this handler answers, and `after` what it becomes,
    /// when it handles `request` from `origin`.
    spec fn responds(
        &self,
        request: Message,
        origin: Address,
        after: Self,
        reply: (Message, Option<ServerCMD>),
    ) -> bool;

    /// `reply` is what this handler answers, and `after` what it becomes,
    /// when the client at `addr` connects.
    spec fn connects(&self, addr: Address, after: Self, reply: Option<ServerCMD>) -> bool;

    /// `reply` is what this handler answers, and `after` what it becomes,
    /// when the connection with `addr` ends.
    spec fn disconnects(&self, addr: Address, after: Self, reply: Option<ServerCMD>) -> bool;

    /// Handles one decoded envelope from `origin`: the response goes back to
    /// `origin` only, the command, if any, to the server.
    fn handle_request(&mut self, request: Message, origin: Address) -> (r: (
        Message,
        Option<ServerCMD>,
    ))
        ensures
            old(self).responds(request, origin, *final(self), r),
    ;

    /// Told once when the client at `addr` connects, before its first envelope.
    fn client_connect(&mut self, addr: Address) -> (r: Option<ServerCMD>)
        ensures
            old(self).connects(addr, *final(self), r),
    ;

    /// Told once when the connection with `addr` ends, whatever ended it.
    fn client_disconnect(&mut self, addr: Address) -> (r: Option<ServerCMD>)
        ensures
            old(self).disconnects(addr, *final(self), r),
    ;
}

/// A call that a connection actor needs from the handler.
#[derive(Debug)]
pub enum HandlerJob {
    Connect(Address),
    Request(Message, Address),
    Disconnect(Address),
}

/// The handler's answer to a `HandlerJob`.
#[derive(Debug)]
pub enum HandlerReply {
    Connected(Option<ServerCMD>),
    Responded(Message, Option<ServerCMD>),
    Disconnected(Option<ServerCMD>),
}

/// `reply` is of the kind that answers `job`.
pub open spec fn answers(job: HandlerJob, reply: HandlerReply) -> bool {
    match job {
        HandlerJob::Connect(_) => reply is Connected,
        HandlerJob::Request(_, _) => reply is Responded,
        HandlerJob::Disconnect(_) => reply is Disconnected,
    }
}

/// Owns the handler and runs its methods one at a time: `serve` takes the
/// host by unique reference, so no two calls into the handler can overlap.
/// This one critical section bounds the throughput of the whole server.
pub struct HandlerHost<H> {
    handler: H,
}

impl<H: RequestHandler> HandlerHost<H> {
    /// A host that owns `handler`.
    pub fn new(handler: H) -> (r: HandlerHost<H>)
        ensures
            r.handler() == handler,
    {
        HandlerHost { handler }
    }

    /// The hosted handler.
    pub closed spec fn handler(&self) -> H {
        self.handler
    }

    /// Runs `job` on the handler, through exactly one of its methods, and
    /// returns the handler's own answer.
    pub fn serve(&mut self, job: HandlerJob) -> (r: HandlerReply)
        ensures
            answers(job, r),
            job is Connect ==> old(self).handler().connects(
                job->Connect_0,
                final(self).handler(),
                r->Connected_0,
            ),
            job is Request ==> old(self).handler().responds(
                job->Request_0,
                job->Request_1,
                final(self).handler(),
                (r->Responded_0, r->Responded_1),
            ),
            job is Disconnect ==> old(self).handler().disconnects(
                job->Disconnect_0,
                final(self).handler(),
                r->Disconnected_0,
            ),
    {
        match job {
            HandlerJob::Connect(addr) => HandlerReply::Connected(self.handler.client_connect(addr)),
            HandlerJob::Request(m, origin) => {
                let (response, cmd) = self.handler.handle_request(m, origin);
                HandlerReply::Responded(response, cmd)
            },
            HandlerJob::Disconnect(addr) => HandlerReply::Disconnected(
                self.handler.client_disconnect(addr),
            ),
        }
    }

    /// The hosted handler, for inspection.
    pub fn get_handler(&self) -> (r: &H)
        ensures
            *r == self.handler(),
    {
        &self.handler
    }

    /// Gives the handler back.
    pub fn into_handler(self) -> (r: H)
        ensures
            r == self.handler(),
    {
        self.handler
    }
}

} // verus!
