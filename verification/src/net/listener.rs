//! The state machine of a listening socket.
//!
//! A listener hands each accepted connection to its consumer through a sink,
//! and asks for the next one only when the consumer has asked for it. While
//! it waits for the consumer it must stay in the slab: an event for its token
//! may still arrive.

use crate::endpoint::{fail, pair, poll_busy, poll_sink, send, Pair, Parked, Polled, Sink, Source};
use crate::net::connection::Connection;
use crate::net::{Action, Interest};
use bytes::Bytes;
use vstd::pervasive::unreached;
use vstd::prelude::*;

verus! {

/// Where a listener stands.
pub enum State {
    /// Not yet started; it holds the sink to its consumer.
    New { tx: Sink<Pair<Bytes>> },
    /// The sink is away: polled, or parked until the consumer asks.
    Waiting,
    /// The consumer has asked for a connection; the sink is ready to take it.
    Listening { tx: Sink<Pair<Bytes>> },
}

impl State {
    fn new_to_waiting(&mut self) -> (tx: Sink<Pair<Bytes>>)
        requires
            *old(self) is New,
        ensures
            *final(self) is Waiting,
            *old(self) == (State::New { tx }),
    {
        let mut held = State::Waiting;
        std::mem::swap(self, &mut held);
        match held {
            State::New { tx } => tx,
            _ => unreached(),
        }
    }

    fn waiting_to_listening(&mut self, tx: Sink<Pair<Bytes>>)
        requires
            *old(self) is Waiting,
        ensures
            *final(self) == (State::Listening { tx }),
    {
        *self = State::Listening { tx: tx };
    }

    fn listening_to_waiting(&mut self) -> (tx: Sink<Pair<Bytes>>)
        requires
            *old(self) is Listening,
        ensures
            *final(self) is Waiting,
            *old(self) == (State::Listening { tx }),
    {
        let mut held = State::Waiting;
        std::mem::swap(self, &mut held);
        match held {
            State::Listening { tx } => tx,
            _ => unreached(),
        }
    }
}

/// What the non-blocking accept on the listening socket gave.
#[derive(Clone, Copy, Debug, PartialEq, Eq, Structural)]
pub enum Accepted {
    /// A connection.
    Socket,
    /// Nothing to accept yet.
    WouldBlock,
    /// The socket reported an error.
    Failed,
}

/// What a listener has done on a readable event.
pub struct Accept {
    /// The state machine of the accepted connection, if there is one.
    pub conn: Option<Connection>,
    /// What the dispatcher does with the listener.
    pub action: Action,
    /// The sink to wake the listener from, where it waits for its consumer.
    pub parked: Option<Parked<Pair<Bytes>>>,
}

/// A listening socket's state machine.
pub struct Listener {
    state: State,
}

impl Listener {
    /// Where the listener stands.
    pub closed spec fn state(&self) -> State {
        self.state
    }

    /// A new listener, and the source on which its consumer receives the
    /// accepted connections.
    pub fn of() -> (made: (Listener, Source<Pair<Bytes>>))
        ensures
            made.0.state() is New,
    {
        Listener::with_ends(pair())
    }

    /// A new listener over one sequence of connections, and the end that
    /// its consumer holds: the listener keeps the sink, and its consumer
    /// gets the source.
    pub fn with_ends(ends: Pair<Pair<Bytes>>) -> (made: (Listener, Source<Pair<Bytes>>))
        ensures
            made.0.state() == (State::New { tx: ends.0 }),
            made.1 == ends.1,
    {
        let (tx, rx) = ends;
        (Listener::new(tx), rx)
    }

    /// A new listener that delivers into `tx`.
    pub fn new(tx: Sink<Pair<Bytes>>) -> (listener: Listener)
        ensures
            listener.state() == (State::New { tx }),
    {
        Listener { state: State::New { tx: tx } }
    }

    pub fn is_new(&self) -> (b: bool)
        ensures
            b == (self.state() is New),
    {
        match self.state {
            State::New { .. } => true,
            _ => false,
        }
    }

    pub fn is_waiting(&self) -> (b: bool)
        ensures
            b == (self.state() is Waiting),
    {
        match self.state {
            State::Waiting => true,
            _ => false,
        }
    }

    pub fn is_listening(&self) -> (b: bool)
        ensures
            b == (self.state() is Listening),
    {
        match self.state {
            State::Listening { .. } => true,
            _ => false,
        }
    }

    /// Starts a new listener: its sink is polled, and the listener goes on
    /// as [`Listener::polled`] says for what the poll found.
    pub fn listen(&mut self) -> (step: (Action, Option<Parked<Pair<Bytes>>>))
        requires
            old(self).state() is New,
        ensures
            settled(final(self).state(), step.0, step.1),
            step.1 matches Some(parked) ==> parked is Idle,
    {
        let tx = self.state.new_to_waiting();
        let polled = poll_sink(tx);
        self.polled(polled)
    }

    /// The consumer has asked for the next connection, and `tx` is the sink
    /// that takes it: the listener wants to be told when its socket is
    /// readable.
    pub fn ready(&mut self, tx: Sink<Pair<Bytes>>) -> (action: Action)
        requires
            old(self).state() is Waiting,
        ensures
            final(self).state() == (State::Listening { tx }),
            action == Action::Register(Interest::Read),
    {
        self.state.waiting_to_listening(tx);
        Action::read()
    }

    /// Takes up a waiting listener's sink after a poll. A ready sink makes
    /// the listener listen; a dropped one ends it; one that is pending stays
    /// away, and is handed back to be parked until the consumer asks.
    pub fn polled(&mut self, polled: Polled<Pair<Bytes>>) -> (step: (
        Action,
        Option<Parked<Pair<Bytes>>>,
    ))
        requires
            old(self).state() is Waiting,
        ensures
            match polled {
                Polled::Ready(tx) => {
                    &&& final(self).state() == (State::Listening { tx })
                    &&& step.0 == Action::Register(Interest::Read)
                    &&& step.1 is None
                },
                Polled::Dropped => {
                    &&& final(self).state() is Waiting
                    &&& step.0 == Action::Remove
                    &&& step.1 is None
                },
                Polled::Pending(parked) => {
                    &&& final(self).state() is Waiting
                    &&& step.0 == Action::Wait
                    &&& step.1 == Some(parked)
                },
            },
            settled(final(self).state(), step.0, step.1),
    {
        match polled {
            Polled::Ready(tx) => (self.ready(tx), None),
            Polled::Dropped => (Action::remove(), None),
            Polled::Pending(parked) => (Action::wait(), Some(parked)),
        }
    }

    /// The socket is readable, and `accepted` is what the accept on it gave.
    ///
    /// A connection gets a state machine of its own, whose two ends are sent
    /// to the consumer; the sink is then polled, and the listener goes on as
    /// [`Listener::polled`] says. Without a connection the listener keeps
    /// listening. After an error the consumer's sequence is failed, and the
    /// listener is to be removed.
    pub fn accept(&mut self, accepted: Accepted) -> (done: Accept)
        requires
            old(self).state() is Listening,
        ensures
            match accepted {
                Accepted::Socket => {
                    &&& done.conn matches Some(conn)
                    &&& conn.reading() is New
                    &&& conn.writing() is New
                    &&& settled(final(self).state(), done.action, done.parked)
                    &&& done.parked matches Some(parked) ==> parked is Busy
                },
                Accepted::WouldBlock => {
                    &&& done.conn is None
                    &&& *final(self) == *old(self)
                    &&& done.action == Action::Register(Interest::Read)
                    &&& done.parked is None
                },
                Accepted::Failed => {
                    &&& done.conn is None
                    &&& final(self).state() is Waiting
                    &&& done.action == Action::Remove
                    &&& done.parked is None
                },
            },
    {
        let tx = self.state.listening_to_waiting();
        match accepted {
            Accepted::Socket => {
                let (conn, ends) = Connection::of();
                let busy = send(tx, ends);
                let polled = poll_busy(busy);
                let (action, parked) = self.polled(polled);
                Accept { conn: Some(conn), action, parked }
            },
            Accepted::WouldBlock => {
                let action = self.ready(tx);
                Accept { conn: None, action, parked: None }
            },
            Accepted::Failed => {
                fail(tx);
                Accept { conn: None, action: Action::remove(), parked: None }
            },
        }
    }
}

/// The three ways in which a listener comes out of a poll of its sink:
/// listening and asking to be registered for reads, waiting with its sink
/// parked, or waiting without a sink and asking to be removed.
pub open spec fn settled(state: State, action: Action, parked: Option<Parked<Pair<Bytes>>>) -> bool {
    ||| state is Listening && action == Action::Register(Interest::Read) && parked is None
    ||| state is Waiting && action == Action::Wait && parked is Some
    ||| state is Waiting && action == Action::Remove && parked is None
}

} // verus!
