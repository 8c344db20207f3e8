//! The verdicts that the socket state machines hand to the dispatcher.

pub mod connection;
pub mod listener;

use crate::net::connection::Connection;
use crate::net::listener::Listener;
use vstd::pervasive::unreached;
use vstd::prelude::*;

verus! {

/// Which kinds of kernel readiness a socket is to be registered for.
#[derive(Clone, Copy, Debug, PartialEq, Eq, Structural)]
pub enum Interest {
    Read,
    Write,
    ReadWrite,
}

impl Interest {
    /// Whether the socket is to be registered for readable events.
    pub fn is_readable(&self) -> (b: bool)
        ensures
            b == (*self is Read || *self is ReadWrite),
    {
        match *self {
            Interest::Read => true,
            Interest::Write => false,
            Interest::ReadWrite => true,
        }
    }

    /// Whether the socket is to be registered for writable events.
    pub fn is_writable(&self) -> (b: bool)
        ensures
            b == (*self is Write || *self is ReadWrite),
    {
        match *self {
            Interest::Read => false,
            Interest::Write => true,
            Interest::ReadWrite => true,
        }
    }
}

/// What the dispatcher has to do with a socket after a state machine has
/// taken a step.
#[derive(Clone, Copy, Debug, PartialEq, Eq, Structural)]
pub enum Action {
    /// Nothing: a callback is parked and will wake the socket.
    Wait,
    /// Register the socket with the notifier, one-shot, for this interest.
    Register(Interest),
    /// Drop the socket's slab entry.
    Remove,
}

impl Action {
    pub fn wait() -> (a: Action)
        ensures
            a == Action::Wait,
    {
        Action::Wait
    }

    pub fn is_register(&self) -> (b: bool)
        ensures
            b == (*self is Register),
    {
        match *self {
            Action::Register(..) => true,
            _ => false,
        }
    }

    pub fn read() -> (a: Action)
        ensures
            a == Action::Register(Interest::Read),
    {
        Action::Register(Interest::Read)
    }

    pub fn write() -> (a: Action)
        ensures
            a == Action::Register(Interest::Write),
    {
        Action::Register(Interest::Write)
    }

    pub fn read_write() -> (a: Action)
        ensures
            a == Action::Register(Interest::ReadWrite),
    {
        Action::Register(Interest::ReadWrite)
    }

    pub fn remove() -> (a: Action)
        ensures
            a == Action::Remove,
    {
        Action::Remove
    }
}

/// An entry of the dispatcher's slab: the state machine of one socket.
pub enum Evented {
    Stream(Connection),
    Listener(Listener),
}

impl Evented {
    /// The listener that this entry is.
    pub fn listener(&mut self) -> (listener: &mut Listener)
        requires
            *old(self) is Listener,
        ensures
            *listener == old(self)->Listener_0,
            *final(self) == Evented::Listener(*final(listener)),
    {
        match self {
            Evented::Listener(v) => v,
            _ => unreached(),
        }
    }

    /// The connection that this entry is.
    pub fn stream(&mut self) -> (conn: &mut Connection)
        requires
            *old(self) is Stream,
        ensures
            *conn == old(self)->Stream_0,
            *final(self) == Evented::Stream(*final(conn)),
    {
        match self {
            Evented::Stream(v) => v,
            _ => unreached(),
        }
    }
}

} // verus!
