//! Which datagram belongs to which connection, and when a connection is handed
//! to the application.
//!
//! Remotes are known by numbers that stand for their addresses.

use crate::handshake::cookie::{cookie_for, CookieFactory};
use crate::transport::connection::{
    build_challenge, challenge_packet, echoes_cookie, is_valid_echo,
};
use std::collections::HashSet;
use vstd::prelude::*;

verus! {

/// What to do about a datagram.
pub enum EndpointAction {
    /// Send this cookie challenge to the remote. Nothing is kept of it.
    Challenge(Vec<u8>),
    /// The remote has echoed its cookie: make a connection for it, and hand the
    /// datagram to that.
    Accept,
    /// Hand the datagram to the connection of the remote.
    Process,
}

/// What to do about a datagram.
#[verifier::ext_equal]
pub enum ActionView {
    Challenge(Seq<u8>),
    Accept,
    Process,
}

impl View for EndpointAction {
    type V = ActionView;

    open spec fn view(&self) -> ActionView {
        match *self {
            EndpointAction::Challenge(packet) => ActionView::Challenge(packet@),
            EndpointAction::Accept => ActionView::Accept,
            EndpointAction::Process => ActionView::Process,
        }
    }
}

/// What to do about a datagram from a remote that is known or not: an unknown
/// one without a valid cookie is challenged.
pub open spec fn action_for(
    known: bool,
    secret: Seq<u8>,
    address: Seq<u8>,
    buf: Seq<u8>,
) -> ActionView {
    if known {
        ActionView::Process
    } else if is_valid_echo(secret, address, buf) {
        ActionView::Accept
    } else {
        ActionView::Challenge(challenge_packet(cookie_for(secret, address)))
    }
}

/// Decide about a datagram.
fn decide(known: bool, address: &[u8], buf: &[u8], factory: &CookieFactory) -> (a: EndpointAction)
    ensures
        a@ == action_for(known, factory@, address@, buf@),
{
    if known {
        EndpointAction::Process
    } else if echoes_cookie(factory, address, buf) {
        EndpointAction::Accept
    } else {
        EndpointAction::Challenge(build_challenge(factory, address))
    }
}

/// The connections of a server.
pub struct ServerTable {
    /// Remotes that have a connection.
    conns: HashSet<u64>,
    /// Remotes whose connection waits to be handed to the application.
    waiting: HashSet<u64>,
    /// Remotes whose connection was handed to the application.
    delivered: HashSet<u64>,
}

/// What a [`ServerTable`] stands for.
#[verifier::ext_equal]
pub struct TableState {
    pub conns: Set<u64>,
    pub waiting: Set<u64>,
    pub delivered: Set<u64>,
}

/// What follows from a packet that a connection has processed.
#[derive(Clone, Copy)]
pub struct Processed {
    /// Hand the connection to the application.
    pub deliver: bool,
    /// Forget the connection.
    pub remove: bool,
}

impl View for ServerTable {
    type V = TableState;

    closed spec fn view(&self) -> TableState {
        TableState { conns: self.conns@, waiting: self.waiting@, delivered: self.delivered@ }
    }
}

impl TableState {
    pub open spec fn new() -> TableState {
        TableState { conns: Set::empty(), waiting: Set::empty(), delivered: Set::empty() }
    }

    /// A connection was made for a remote.
    pub open spec fn accepted(self, remote: u64) -> TableState {
        TableState {
            conns: self.conns.insert(remote),
            waiting: self.waiting.insert(remote),
            ..self
        }
    }

    /// The table after a datagram: only a valid cookie makes a connection.
    pub open spec fn after_datagram(
        self,
        secret: Seq<u8>,
        remote: u64,
        address: Seq<u8>,
        buf: Seq<u8>,
    ) -> TableState {
        if action_for(self.conns.contains(remote), secret, address, buf) is Accept {
            self.accepted(remote)
        } else {
            self
        }
    }

    /// The connection has just become established for the first time.
    pub open spec fn is_arrival(self, remote: u64, was: bool, is: bool) -> bool {
        !was && is && !self.delivered.contains(remote)
    }

    /// What follows from a packet: a connection that has just become
    /// established is delivered if it still waits; a closed one is removed.
    pub open spec fn outcome(self, remote: u64, was: bool, is: bool, closed: bool) -> Processed {
        Processed {
            deliver: self.is_arrival(remote, was, is) && self.waiting.contains(remote),
            remove: closed,
        }
    }

    /// The table after the packet.
    pub open spec fn processed(self, remote: u64, was: bool, is: bool, closed: bool) -> TableState {
        let arrived = if self.is_arrival(remote, was, is) {
            TableState {
                waiting: self.waiting.remove(remote),
                delivered: self.delivered.insert(remote),
                ..self
            }
        } else {
            self
        };
        if closed {
            TableState {
                conns: arrived.conns.remove(remote),
                delivered: arrived.delivered.remove(remote),
                ..arrived
            }
        } else {
            arrived
        }
    }
}

impl ServerTable {
    pub fn new() -> (t: Self)
        ensures
            t@ == TableState::new(),
    {
        broadcast use vstd::std_specs::hash::group_hash_axioms;

        ServerTable { conns: HashSet::new(), waiting: HashSet::new(), delivered: HashSet::new() }
    }

    /// The remote has a connection.
    pub fn is_known(&self, remote: u64) -> (known: bool)
        ensures
            known == self@.conns.contains(remote),
    {
        broadcast use vstd::std_specs::hash::group_hash_axioms;

        self.conns.contains(&remote)
    }

    /// A datagram came from a remote with this address. A remote without a
    /// connection must first echo the cookie for its address; until then it is
    /// challenged, and nothing is kept of it.
    pub fn on_datagram(
        &mut self,
        remote: u64,
        address: &[u8],
        buf: &[u8],
        factory: &CookieFactory,
    ) -> (a: EndpointAction)
        ensures
            a@ == action_for(old(self)@.conns.contains(remote), factory@, address@, buf@),
            final(self)@ == old(self)@.after_datagram(factory@, remote, address@, buf@),
    {
        broadcast use vstd::std_specs::hash::group_hash_axioms;

        let action = decide(self.is_known(remote), address, buf, factory);
        if let EndpointAction::Accept = &action {
            self.conns.insert(remote);
            self.waiting.insert(remote);
        }
        action
    }

    /// A connection has processed a packet: whether it was established before,
    /// is now, and is closed now.
    pub fn on_processed(&mut self, remote: u64, was: bool, is: bool, closed: bool) -> (p: Processed)
        ensures
            p == old(self)@.outcome(remote, was, is, closed),
            final(self)@ == old(self)@.processed(remote, was, is, closed),
    {
        broadcast use vstd::std_specs::hash::group_hash_axioms;

        let mut deliver: bool = false;
        if !was && is && !self.delivered.contains(&remote) {
            self.delivered.insert(remote);
            deliver = self.waiting.remove(&remote);
        }
        if closed {
            self.conns.remove(&remote);
            self.delivered.remove(&remote);
        }
        Processed { deliver, remove: closed }
    }
}

/// A connection is handed to the application once: as long as it lives, it is
/// not delivered again, whatever packets come from it or from others.
pub proof fn delivered_once(
    t: TableState,
    remote: u64,
    was: bool,
    is: bool,
    other: u64,
    other_was: bool,
    other_is: bool,
    closed: bool,
)
    requires
        t.delivered.contains(remote),
        other == remote ==> !closed,
    ensures
        !t.outcome(remote, was, is, false).deliver,
        t.processed(other, other_was, other_is, closed).delivered.contains(remote),
{
}

/// A connection is delivered at the packet that establishes it, not before.
pub proof fn delivered_when_established(t: TableState, remote: u64, was: bool, is: bool, closed: bool)
    ensures
        t.outcome(remote, was, is, closed).deliver ==> !was && is,
        t.conns.contains(remote) && t.waiting.contains(remote) && !t.delivered.contains(remote)
            && !was && is ==> t.outcome(remote, was, is, closed).deliver,
{
}

/// A remote whose connection was closed can connect again, and the new
/// connection is delivered like the first.
pub proof fn reconnect_is_delivered(t: TableState, remote: u64, was: bool, is: bool)
    ensures
        ({
            let again = t.processed(remote, was, is, true).accepted(remote);
            &&& !t.processed(remote, was, is, true).conns.contains(remote)
            &&& again.outcome(remote, false, true, false).deliver
        }),
{
}

/// Nothing is kept of a client that has not echoed the cookie for its address:
/// its datagram is answered with a challenge, and leaves the tables of a server
/// and of an endpoint as they are.
pub proof fn no_state_before_cookie(
    t: TableState,
    conns: Set<u64>,
    secret: Seq<u8>,
    remote: u64,
    address: Seq<u8>,
    buf: Seq<u8>,
)
    requires
        !is_valid_echo(secret, address, buf),
    ensures
        t.after_datagram(secret, remote, address, buf) == t,
        conns_after_datagram(conns, secret, remote, address, buf) == conns,
        action_for(false, secret, address, buf) == ActionView::Challenge(
            challenge_packet(cookie_for(secret, address)),
        ),
{
}

/// A datagram as it arrives.
pub struct Datagram {
    pub remote: u64,
    pub address: Seq<u8>,
    pub buf: Seq<u8>,
}

/// The table after a run of datagrams.
pub open spec fn after_datagrams(t: TableState, secret: Seq<u8>, run: Seq<Datagram>) -> TableState
    decreases run.len(),
{
    if run.len() == 0 {
        t
    } else {
        let last = run.last();
        after_datagrams(t, secret, run.drop_last()).after_datagram(
            secret,
            last.remote,
            last.address,
            last.buf,
        )
    }
}

/// Connections come from valid cookies alone: whatever datagrams arrive, a
/// remote that has a connection afterwards had one before, or has echoed the
/// cookie for its address.
pub proof fn connections_come_from_cookies(
    t: TableState,
    secret: Seq<u8>,
    run: Seq<Datagram>,
    remote: u64,
)
    ensures
        after_datagrams(t, secret, run).conns.contains(remote) ==> t.conns.contains(remote)
            || exists|i: int|
            0 <= i < run.len() && (#[trigger] run[i]).remote == remote && is_valid_echo(
                secret,
                run[i].address,
                run[i].buf,
            ),
    decreases run.len(),
{
    if run.len() > 0 {
        connections_come_from_cookies(t, secret, run.drop_last(), remote);
        let before = after_datagrams(t, secret, run.drop_last());
        let last = run[run.len() - 1];
        if after_datagrams(t, secret, run).conns.contains(remote) && !t.conns.contains(remote) {
            if before.conns.contains(remote) {
                let i = choose|i: int|
                    0 <= i < run.drop_last().len() && (#[trigger] run.drop_last()[i]).remote
                        == remote && is_valid_echo(
                        secret,
                        run.drop_last()[i].address,
                        run.drop_last()[i].buf,
                    );
                assert(run[i] == run.drop_last()[i]);
            } else {
                assert(last.remote == remote);
            }
        }
    }
}

/// The remotes with a connection after a datagram.
pub open spec fn conns_after_datagram(
    conns: Set<u64>,
    secret: Seq<u8>,
    remote: u64,
    address: Seq<u8>,
    buf: Seq<u8>,
) -> Set<u64> {
    if action_for(conns.contains(remote), secret, address, buf) is Accept {
        conns.insert(remote)
    } else {
        conns
    }
}

/// The connections of an endpoint, which announces each of them at once.
pub struct EndpointTable {
    conns: HashSet<u64>,
}

impl View for EndpointTable {
    type V = Set<u64>;

    closed spec fn view(&self) -> Set<u64> {
        self.conns@
    }
}

impl EndpointTable {
    pub fn new() -> (t: Self)
        ensures
            t@ == Set::<u64>::empty(),
    {
        broadcast use vstd::std_specs::hash::group_hash_axioms;

        EndpointTable { conns: HashSet::new() }
    }

    /// The remote has a connection.
    pub fn is_known(&self, remote: u64) -> (known: bool)
        ensures
            known == self@.contains(remote),
    {
        broadcast use vstd::std_specs::hash::group_hash_axioms;

        self.conns.contains(&remote)
    }

    /// A datagram came from a remote with this address. A remote without a
    /// connection must first echo the cookie for its address; until then it is
    /// challenged, and nothing is kept of it.
    pub fn on_datagram(
        &mut self,
        remote: u64,
        address: &[u8],
        buf: &[u8],
        factory: &CookieFactory,
    ) -> (a: EndpointAction)
        ensures
            a@ == action_for(old(self)@.contains(remote), factory@, address@, buf@),
            final(self)@ == conns_after_datagram(old(self)@, factory@, remote, address@, buf@),
    {
        broadcast use vstd::std_specs::hash::group_hash_axioms;

        let action = decide(self.is_known(remote), address, buf, factory);
        if let EndpointAction::Accept = &action {
            self.conns.insert(remote);
        }
        action
    }

    /// A connection to the remote was opened from here.
    pub fn on_opened(&mut self, remote: u64)
        ensures
            final(self)@ == old(self)@.insert(remote),
    {
        broadcast use vstd::std_specs::hash::group_hash_axioms;

        self.conns.insert(remote);
    }

    /// A connection has processed a packet; a closed one is forgotten.
    pub fn on_processed(&mut self, remote: u64, closed: bool) -> (remove: bool)
        ensures
            remove == closed,
            final(self)@ == (if closed {
                old(self)@.remove(remote)
            } else {
                old(self)@
            }),
    {
        broadcast use vstd::std_specs::hash::group_hash_axioms;

        if closed {
            self.conns.remove(&remote);
        }
        closed
    }
}

} // verus!
