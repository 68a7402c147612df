//! The server's decisions: which connections it admits, and which
//! connection actors receive what when a `ServerCMD` comes in. Connections
//! are registered by peer address, each with the handle through which the
//! driver reaches its actor, so that a command can name one connection.

use vstd::prelude::*;

use crate::address::Address;
use crate::commands::{ConnCMD, ServerCMD};
use crate::message::Message;

verus! {

/// Capacity of each connection's command queue. A connection whose queue
/// is full when a command comes is closed: it never misses a command silently.
pub const CHANNEL_CAPACITY: usize = 16;

/// Where the server stands.
#[derive(Clone, Copy, Debug, PartialEq, Eq, Structural)]
pub enum ServerPhase {
    /// Built, not yet listening.
    Idle,
    /// Listening: admitting connections and taking commands.
    Listening,
    /// A shutdown was ordered: every connection was kicked.
    ShuttingDown,
}

/// A command for the connection actor of the peer at `target`.
#[derive(Debug)]
pub struct Delivery {
    pub target: Address,
    pub cmd: ConnCMD,
}

/// One delivery of `cmd` to each address of `addrs`, in order.
pub open spec fn broadcast(addrs: Seq<Address>, cmd: ConnCMD) -> Seq<Delivery> {
    addrs.map_values(|a: Address| Delivery { target: a, cmd })
}

/// The deliveries for a kick of `target`: one, when it is connected.
pub open spec fn kick_of(addrs: Seq<Address>, target: Address) -> Seq<Delivery> {
    if addrs.contains(target) {
        seq![Delivery { target, cmd: ConnCMD::Kick }]
    } else {
        Seq::empty()
    }
}

/// The deliveries for `cmd` when the connections at `addrs` are registered.
pub open spec fn deliveries_for(addrs: Seq<Address>, cmd: ServerCMD) -> Seq<Delivery> {
    match cmd {
        ServerCMD::ShutDown(_) => broadcast(addrs, ConnCMD::Kick),
        ServerCMD::SendAll(m) => broadcast(addrs, ConnCMD::Send(m)),
        ServerCMD::Kick(a) => kick_of(addrs, a),
    }
}

/// The number of deliveries among `ds` that go to `a`.
pub open spec fn count_to(ds: Seq<Delivery>, a: Address) -> nat
    decreases ds.len(),
{
    if ds.len() == 0 {
        0
    } else {
        count_to(ds.drop_last(), a) + if ds.last().target == a {
            1nat
        } else {
            0nat
        }
    }
}

proof fn lemma_count_broadcast(addrs: Seq<Address>, cmd: ConnCMD, a: Address)
    requires
        addrs.no_duplicates(),
    ensures
        count_to(broadcast(addrs, cmd), a) == if addrs.contains(a) {
            1nat
        } else {
            0nat
        },
    decreases addrs.len(),
{
    if addrs.len() > 0 {
        let rest = addrs.drop_last();
        assert(rest.no_duplicates()) by {
            assert forall|i: int, j: int|
                0 <= i < rest.len() && 0 <= j < rest.len() && i != j implies rest[i]
                != rest[j] by {
                assert(rest[i] == addrs[i] && rest[j] == addrs[j]);
            }
        }
        lemma_count_broadcast(rest, cmd, a);
        assert(broadcast(addrs, cmd).drop_last() =~= broadcast(rest, cmd));
        if addrs.last() == a {
            if rest.contains(a) {
                let k = choose|k: int| 0 <= k < rest.len() && rest[k] == a;
                assert(addrs[k] == addrs[addrs.len() - 1]);
            }
        } else {
            if addrs.contains(a) {
                let k = choose|k: int| 0 <= k < addrs.len() && addrs[k] == a;
                assert(rest[k] == a);
            }
            if rest.contains(a) {
                let k = choose|k: int| 0 <= k < rest.len() && rest[k] == a;
                assert(addrs[k] == a);
            }
        }
    }
}

/// Broadcast reaches each subscriber once: with the connections at
/// `addrs` registered, `SendAll(m)` gives every one of them exactly one
/// delivery, of `Send(m)`, and no other address any delivery. A connection
/// registered afterwards is not among `addrs`: the broadcast never reaches it.
pub proof fn lemma_send_all_reaches_each_once(addrs: Seq<Address>, m: Message)
    requires
        addrs.no_duplicates(),
    ensures
        deliveries_for(addrs, ServerCMD::SendAll(m)).len() == addrs.len(),
        forall|i: int|
            0 <= i < addrs.len() ==> #[trigger] deliveries_for(addrs, ServerCMD::SendAll(m))[i].cmd
                == ConnCMD::Send(m),
        forall|a: Address|
            #[trigger] count_to(deliveries_for(addrs, ServerCMD::SendAll(m)), a) == if addrs.contains(
                a,
            ) {
                1nat
            } else {
                0nat
            },
{
    assert forall|a: Address|
        #[trigger] count_to(deliveries_for(addrs, ServerCMD::SendAll(m)), a) == if addrs.contains(
            a,
        ) {
            1nat
        } else {
            0nat
        } by {
        lemma_count_broadcast(addrs, ConnCMD::Send(m), a);
    }
}

/// A kick reaches its target alone: `Kick(x)` gives one delivery, of
/// `ConnCMD::Kick`, to `x` when `x` is connected, none otherwise, and no
/// delivery to any other address.
pub proof fn lemma_kick_reaches_only_target(addrs: Seq<Address>, x: Address)
    ensures
        deliveries_for(addrs, ServerCMD::Kick(x)).len() == if addrs.contains(x) {
            1int
        } else {
            0int
        },
        forall|i: int|
            0 <= i < deliveries_for(addrs, ServerCMD::Kick(x)).len() ==> #[trigger] deliveries_for(
                addrs,
                ServerCMD::Kick(x),
            )[i] == (Delivery { target: x, cmd: ConnCMD::Kick }),
        forall|a: Address|
            a != x ==> #[trigger] count_to(deliveries_for(addrs, ServerCMD::Kick(x)), a) == 0,
{
    let ds = deliveries_for(addrs, ServerCMD::Kick(x));
    assert(count_to(Seq::<Delivery>::empty(), x) == 0);
    if addrs.contains(x) {
        assert(ds.drop_last() =~= Seq::<Delivery>::empty());
    }
    assert forall|a: Address| a != x implies #[trigger] count_to(ds, a) == 0 by {
        assert(count_to(Seq::<Delivery>::empty(), a) == 0);
    }
}

/// The server's registry of connections and its phase.
pub struct Server<T> {
    address: Address,
    phase: ServerPhase,
    accept_while_shutting_down: bool,
    conns: Vec<(Address, T)>,
}

impl<T> Server<T> {
    /// The address the server listens on.
    pub closed spec fn address(&self) -> Address {
        self.address
    }

    /// The server's phase.
    pub closed spec fn spec_phase(&self) -> ServerPhase {
        self.phase
    }

    /// Whether connections are still admitted once a shutdown was ordered.
    pub closed spec fn spec_accept_while_shutting_down(&self) -> bool {
        self.accept_while_shutting_down
    }

    /// The registered connections, in the order they were admitted.
    pub closed spec fn entries(&self) -> Seq<(Address, T)> {
        self.conns@
    }

    /// The addresses of the registered connections.
    pub open spec fn addrs(&self) -> Seq<Address> {
        self.entries().map_values(|e: (Address, T)| e.0)
    }

    /// No address is registered twice.
    pub open spec fn wf(&self) -> bool {
        self.addrs().no_duplicates()
    }

    /// The server admits new connections.
    pub open spec fn spec_accepts(&self) -> bool {
        self.spec_phase() == ServerPhase::Listening || (self.spec_phase()
            == ServerPhase::ShuttingDown && self.spec_accept_while_shutting_down())
    }

    /// An idle server for `address`, with no connection, that stops
    /// admitting connections once a shutdown is ordered.
    pub fn new(address: Address) -> (r: Server<T>)
        ensures
            r.address() == address,
            r.spec_phase() == ServerPhase::Idle,
            !r.spec_accept_while_shutting_down(),
            r.entries() == Seq::<(Address, T)>::empty(),
            r.wf(),
    {
        let r = Server {
            address,
            phase: ServerPhase::Idle,
            accept_while_shutting_down: false,
            conns: Vec::new(),
        };
        assert(r.addrs() =~= Seq::<Address>::empty());
        r
    }

    /// The same server, set to keep admitting connections, or not, once a
    /// shutdown is ordered.
    pub fn with_accept_while_shutting_down(self, accept: bool) -> (r: Server<T>)
        ensures
            r.address() == self.address(),
            r.spec_phase() == self.spec_phase(),
            r.spec_accept_while_shutting_down() == accept,
            r.entries() == self.entries(),
    {
        Server { accept_while_shutting_down: accept, ..self }
    }

    /// The address the server listens on.
    pub fn get_addr(&self) -> (r: Address)
        ensures
            r == self.address(),
    {
        self.address
    }

    /// The server's phase.
    pub fn phase(&self) -> (r: ServerPhase)
        ensures
            r == self.spec_phase(),
    {
        self.phase
    }

    /// The number of registered connections.
    pub fn conn_count(&self) -> (r: usize)
        ensures
            r == self.entries().len(),
    {
        self.conns.len()
    }

    /// The server admits new connections.
    pub fn accepts(&self) -> (r: bool)
        ensures
            r == self.spec_accepts(),
    {
        match self.phase {
            ServerPhase::Listening => true,
            ServerPhase::ShuttingDown => self.accept_while_shutting_down,
            ServerPhase::Idle => false,
        }
    }

    /// Marks the server as listening, once its listener is bound. Returns
    /// whether it was idle; a server that was not is left as it was.
    pub fn listen(&mut self) -> (r: bool)
        ensures
            r == (old(self).spec_phase() == ServerPhase::Idle),
            final(self).spec_phase() == if r {
                ServerPhase::Listening
            } else {
                old(self).spec_phase()
            },
            final(self).address() == old(self).address(),
            final(self).spec_accept_while_shutting_down() == old(
                self,
            ).spec_accept_while_shutting_down(),
            final(self).entries() == old(self).entries(),
    {
        if self.phase == ServerPhase::Idle {
            self.phase = ServerPhase::Listening;
            true
        } else {
            false
        }
    }

    /// Where `addr` stands in the registry, if it is registered.
    fn position(&self, addr: Address) -> (r: Option<usize>)
        ensures
            match r {
                Some(i) => i < self.entries().len() && self.addrs()[i as int] == addr,
                None => !self.addrs().contains(addr),
            },
    {
        let mut i: usize = 0;
        while i < self.conns.len()
            invariant
                0 <= i <= self.conns.len(),
                forall|k: int| 0 <= k < i ==> self.addrs()[k] != addr,
            decreases self.conns.len() - i,
        {
            if self.conns[i].0 == addr {
                return Some(i);
            }
            i += 1;
        }
        assert forall|k: int| 0 <= k < self.addrs().len() implies self.addrs()[k] != addr by {}
        None
    }

    /// The peer at `addr` is registered.
    pub fn is_registered(&self, addr: Address) -> (r: bool)
        ensures
            r == self.addrs().contains(addr),
    {
        match self.position(addr) {
            Some(_) => true,
            None => false,
        }
    }

    /// Registers the connection of the peer at `addr`, reached through
    /// `handle`, when the server admits connections and `addr` is not
    /// registered yet; otherwise hands `handle` back and changes nothing.
    pub fn add_conn(&mut self, addr: Address, handle: T) -> (r: Result<(), T>)
        requires
            old(self).wf(),
        ensures
            final(self).wf(),
            final(self).address() == old(self).address(),
            final(self).spec_phase() == old(self).spec_phase(),
            final(self).spec_accept_while_shutting_down() == old(
                self,
            ).spec_accept_while_shutting_down(),
            r is Ok <==> old(self).spec_accepts() && !old(self).addrs().contains(addr),
            r is Ok ==> final(self).entries() == old(self).entries().push((addr, handle)),
            r is Err ==> r == Err::<(), T>(handle) && final(self).entries() == old(self).entries(),
    {
        if !self.accepts() || self.is_registered(addr) {
            return Err(handle);
        }
        let ghost before = self.addrs();
        self.conns.push((addr, handle));
        proof {
            assert(self.addrs() =~= before.push(addr));
            assert forall|i: int, j: int|
                0 <= i < self.addrs().len() && 0 <= j < self.addrs().len() && i != j implies self.addrs()[i]
                != self.addrs()[j] by {
                if i < before.len() && j < before.len() {
                    assert(self.addrs()[i] == before[i] && self.addrs()[j] == before[j]);
                } else if i == before.len() {
                    assert(self.addrs()[j] == before[j]);
                } else {
                    assert(self.addrs()[i] == before[i]);
                }
            }
        }
        Ok(())
    }

    /// Unregisters the connection of the peer at `addr` and returns its
    /// handle, or `None` when `addr` is not registered.
    pub fn remove_conn(&mut self, addr: Address) -> (r: Option<T>)
        requires
            old(self).wf(),
        ensures
            final(self).wf(),
            final(self).address() == old(self).address(),
            final(self).spec_phase() == old(self).spec_phase(),
            final(self).spec_accept_while_shutting_down() == old(
                self,
            ).spec_accept_while_shutting_down(),
            r is Some <==> old(self).addrs().contains(addr),
            r is None ==> final(self).entries() == old(self).entries(),
            r is Some ==> exists|i: int|
                0 <= i < old(self).entries().len() && old(self).entries()[i] == (addr, r->Some_0)
                    && final(self).entries() == old(self).entries().remove(i),
            !final(self).addrs().contains(addr),
    {
        match self.position(addr) {
            None => None,
            Some(i) => {
                let ghost before = self.addrs();
                let ghost old_entries = self.entries();
                let (_, handle) = self.conns.remove(i);
                proof {
                    assert(self.addrs() =~= before.remove(i as int));
                    assert forall|p: int, q: int|
                        0 <= p < self.addrs().len() && 0 <= q < self.addrs().len() && p != q implies self.addrs()[p]
                        != self.addrs()[q] by {
                        let p0 = if p < i { p } else { p + 1 };
                        let q0 = if q < i { q } else { q + 1 };
                        assert(self.addrs()[p] == before[p0] && self.addrs()[q] == before[q0]);
                    }
                    assert(!self.addrs().contains(addr)) by {
                        if self.addrs().contains(addr) {
                            let k = choose|k: int| 0 <= k < self.addrs().len() && self.addrs()[k] == addr;
                            let k0 = if k < i { k } else { k + 1 };
                            assert(before[k0] == addr && before[i as int] == addr);
                        }
                    }
                    assert(old_entries[i as int] == (addr, handle));
                }
                Some(handle)
            },
        }
    }

    /// The handle of the connection of the peer at `addr`, if registered.
    pub fn handle_of(&self, addr: Address) -> (r: Option<&T>)
        ensures
            r is Some <==> self.addrs().contains(addr),
            r is Some ==> exists|i: int|
                0 <= i < self.entries().len() && self.entries()[i] == (addr, *r->Some_0),
    {
        match self.position(addr) {
            None => None,
            Some(i) => Some(&self.conns[i].1),
        }
    }

    /// One `Send(message)` delivery to each registered connection, in the
    /// order they were admitted.
    pub fn send_all(&self, message: &Message) -> (r: Vec<Delivery>)
        ensures
            r@ == broadcast(self.addrs(), ConnCMD::Send(*message)),
    {
        self.to_every(&ConnCMD::Send(message.clone()))
    }

    /// One delivery of `cmd` to each registered connection, in order.
    fn to_every(&self, cmd: &ConnCMD) -> (r: Vec<Delivery>)
        ensures
            r@ == broadcast(self.addrs(), *cmd),
    {
        let mut out: Vec<Delivery> = Vec::new();
        let mut i: usize = 0;
        while i < self.conns.len()
            invariant
                0 <= i <= self.conns.len(),
                out@ == broadcast(self.addrs().take(i as int), *cmd),
            decreases self.conns.len() - i,
        {
            out.push(Delivery { target: self.conns[i].0, cmd: cmd.clone() });
            i += 1;
            assert(out@ =~= broadcast(self.addrs().take(i as int), *cmd));
        }
        assert(self.addrs().take(self.conns.len() as int) =~= self.addrs());
        out
    }

    /// Interprets a command for the server: `SendAll(m)` sends `m` to every
    /// registered connection, `Kick(a)` kicks the connection of `a` alone,
    /// and `ShutDown(_)` kicks every connection and moves the server to
    /// `ShuttingDown`. The registry itself is left as it is: a connection
    /// leaves it when its actor is done.
    pub fn dispatch(&mut self, cmd: ServerCMD) -> (r: Vec<Delivery>)
        ensures
            r@ == deliveries_for(old(self).addrs(), cmd),
            final(self).address() == old(self).address(),
            final(self).spec_accept_while_shutting_down() == old(
                self,
            ).spec_accept_while_shutting_down(),
            final(self).entries() == old(self).entries(),
            final(self).spec_phase() == if cmd is ShutDown {
                ServerPhase::ShuttingDown
            } else {
                old(self).spec_phase()
            },
    {
        match cmd {
            ServerCMD::ShutDown(_) => {
                self.phase = ServerPhase::ShuttingDown;
                self.to_every(&ConnCMD::Kick)
            },
            ServerCMD::SendAll(m) => self.to_every(&ConnCMD::Send(m)),
            ServerCMD::Kick(a) => {
                let mut out: Vec<Delivery> = Vec::new();
                if self.is_registered(a) {
                    out.push(Delivery { target: a, cmd: ConnCMD::Kick });
                }
                assert(out@ =~= kick_of(self.addrs(), a));
                out
            },
        }
    }
}

} // verus!
