//! The dispatcher: the slab of socket state machines, and what each event
//! does to it.
//!
//! The dispatcher makes the decisions of the event loop and leaves its
//! outside work to the caller. For a kernel event the caller asks what the
//! event calls for, does that on the socket, and hands in what the socket
//! gave. Every step answers with what is to be done with the socket, and
//! with the endpoints that are to be parked with a callback; a callback
//! wakes its socket by a message that carries the socket's token.

use crate::buffer::bytes_view;
use crate::endpoint::{Error, Pair, Parked, Sink, Source};
use crate::net::connection::{
    action_of, read_done, read_settled, unsent_of, write_done, write_settled, Connection, Reading,
    Received, Sent, Writing,
};
use crate::net::listener::{settled, Accepted, Listener, State};
use crate::net::{Action, Evented, Interest};
use crate::table::{
    no_entries, table_get, table_get_mut, table_insert, table_limit, table_new, table_remove,
    table_view, Table,
};
use bytes::Bytes;
use vstd::prelude::*;

verus! {

/// The number of sockets that a dispatcher holds at most.
pub const CAPACITY: usize = 65_535;

/// The handle of one socket in the dispatcher's slab. It is given when the
/// socket's entry is put in, and may be given again once that entry is out.
#[derive(Clone, Copy, Debug, PartialEq, Eq, Structural)]
pub struct Token(pub usize);

/// What reaches the dispatcher from other threads.
pub enum Message {
    /// Install a new connection.
    Stream(Connection),
    /// Install a new listener.
    Accept(Listener),
    /// The consumer of a listener asks for the next connection and hands
    /// the sink for it, or has gone.
    AcceptInterest(Option<Sink<Pair<Bytes>>>, Token),
    /// The consumer of a connection asks for the next chunk and hands the
    /// sink for it, or has gone.
    ReadInterest(Option<Sink<Bytes>>, Token),
    /// The producer of a connection has sent a chunk, which comes with the
    /// source of what follows, or has ended.
    WriteInterest(Option<(Bytes, Source<Bytes>)>, Token),
}

impl Message {
    /// The message by which the parked sink of the listener at `token` wakes
    /// it: with the sink, where the consumer asks for the next connection;
    /// without one, where the consumer has gone.
    pub fn accept_woken(woken: Result<Sink<Pair<Bytes>>, Error>, token: Token) -> (msg: Message)
        ensures
            msg == Message::AcceptInterest(
                match woken {
                    Ok(tx) => Some(tx),
                    Err(_) => None,
                },
                token,
            ),
    {
        match woken {
            Ok(tx) => Message::AcceptInterest(Some(tx), token),
            Err(_) => Message::AcceptInterest(None, token),
        }
    }

    /// The message by which the parked sink of the connection at `token`
    /// wakes its reading half: with the sink, where the consumer asks for
    /// the next chunk; without one, where the consumer has gone.
    pub fn read_woken(woken: Result<Sink<Bytes>, Error>, token: Token) -> (msg: Message)
        ensures
            msg == Message::ReadInterest(
                match woken {
                    Ok(tx) => Some(tx),
                    Err(_) => None,
                },
                token,
            ),
    {
        match woken {
            Ok(tx) => Message::ReadInterest(Some(tx), token),
            Err(_) => Message::ReadInterest(None, token),
        }
    }

    /// The message by which the parked source of the connection at `token`
    /// wakes its writing half: with the chunk that the producer has sent and
    /// the source of what follows; without one, where the producer has ended
    /// its sequence, and likewise where the sequence has failed, which ends
    /// the writes as its end does.
    pub fn write_woken(
        woken: Result<Option<(Bytes, Source<Bytes>)>, Error>,
        token: Token,
    ) -> (msg: Message)
        ensures
            msg == Message::WriteInterest(
                match woken {
                    Ok(head) => head,
                    Err(_) => None,
                },
                token,
            ),
    {
        match woken {
            Ok(head) => Message::WriteInterest(head, token),
            Err(_) => Message::WriteInterest(None, token),
        }
    }
}

/// What a readable socket calls for.
#[derive(Clone, Copy, Debug, PartialEq, Eq, Structural)]
pub enum Io {
    /// Accept a connection on it.
    Accept,
    /// Read from it.
    Read,
}

/// What the dispatcher has done for one socket, and what is left to do.
pub struct Outcome {
    /// The socket.
    pub token: Token,
    /// What is to be done with the socket: nothing, register it one-shot for
    /// an interest, or close it, its entry being out of the slab.
    pub action: Action,
    /// A listener's sink, to be parked until the consumer asks.
    pub accept: Option<Parked<Pair<Bytes>>>,
    /// A reading half's sink, to be parked until the consumer asks.
    pub read: Option<Parked<Bytes>>,
    /// A writing half's source, to be parked until the producer sends.
    pub write: Option<Source<Bytes>>,
    /// Unsent bytes are left after a partial write: write again at once.
    pub again: bool,
}

/// The dispatcher's answer to an event.
pub enum Dispatch {
    /// The event fits no entry as it stands: nothing has changed, and what
    /// the event carried is dropped.
    Stale,
    /// The slab is full: the new entry is dropped.
    Full,
    /// The event was handled for one socket.
    Done(Outcome),
    /// A connection was accepted: the listener's outcome, and that of the
    /// new connection, unless the slab was full and the connection is
    /// dropped.
    Accepted(Outcome, Option<Outcome>),
}

/// Whether `token` stands for a connection.
pub open spec fn is_stream(conns: Map<usize, Evented>, token: Token) -> bool {
    conns.dom().contains(token.0) && conns[token.0] is Stream
}

/// Whether `token` stands for a listener.
pub open spec fn is_listener(conns: Map<usize, Evented>, token: Token) -> bool {
    conns.dom().contains(token.0) && conns[token.0] is Listener
}

/// Where the reading half of the connection at `token` stands; an entry
/// that is gone has closed.
pub open spec fn reading_at(conns: Map<usize, Evented>, token: Token) -> Reading {
    if is_stream(conns, token) {
        conns[token.0]->Stream_0.reading()
    } else {
        Reading::Closed
    }
}

/// Where the writing half of the connection at `token` stands; an entry
/// that is gone has closed.
pub open spec fn writing_at(conns: Map<usize, Evented>, token: Token) -> Writing {
    if is_stream(conns, token) {
        conns[token.0]->Stream_0.writing()
    } else {
        Writing::Closed
    }
}

/// Where the listener at `token` stands; an entry that is gone had its sink
/// away.
pub open spec fn state_at(conns: Map<usize, Evented>, token: Token) -> State {
    if is_listener(conns, token) {
        conns[token.0]->Listener_0.state()
    } else {
        State::Waiting
    }
}

/// All entries but the one at `token` are as they were.
pub open spec fn kept_but(
    before: Map<usize, Evented>,
    after: Map<usize, Evented>,
    token: Token,
) -> bool {
    after.remove(token.0) == before.remove(token.0)
}

/// The connection at `token` has taken a step and its action is carried
/// out: the action is the one that its two halves call for, the entry is
/// out of the slab if and only if the action is to remove it, and no other
/// entry has changed.
pub open spec fn stream_handled(
    before: Map<usize, Evented>,
    after: Map<usize, Evented>,
    token: Token,
    action: Action,
) -> bool {
    &&& action == action_of(reading_at(after, token), writing_at(after, token))
    &&& kept_but(before, after, token)
    &&& if action is Remove {
        !after.dom().contains(token.0)
    } else {
        is_stream(after, token)
    }
}

/// The listener at `token` has taken a step and its action is carried out:
/// the entry is out of the slab if and only if the action is to remove it,
/// and no other entry has changed.
pub open spec fn listener_handled(
    before: Map<usize, Evented>,
    after: Map<usize, Evented>,
    token: Token,
    action: Action,
) -> bool {
    &&& kept_but(before, after, token)
    &&& if action is Remove {
        !after.dom().contains(token.0)
    } else {
        is_listener(after, token)
    }
}

/// An outcome for `token` that parks nothing and asks for no further write.
pub open spec fn plain(outcome: Outcome, token: Token) -> bool {
    &&& outcome.token == token
    &&& outcome.accept is None
    &&& outcome.read is None
    &&& outcome.write is None
    &&& !outcome.again
}

/// What [`IoHandler::read_interest`] does.
pub open spec fn read_interest_post(
    before: Map<usize, Evented>,
    tx: Option<Sink<Bytes>>,
    token: Token,
    after: Map<usize, Evented>,
    done: Dispatch,
) -> bool {
    if is_stream(before, token) && (tx is Some ==> reading_at(before, token) is Waiting) {
        &&& done matches Dispatch::Done(outcome)
        &&& plain(outcome, token)
        &&& stream_handled(before, after, token, outcome.action)
        &&& writing_at(after, token) == writing_at(before, token)
        &&& reading_at(after, token) == match tx {
            Some(tx) => Reading::Reading { tx },
            None => Reading::Closed,
        }
    } else {
        done is Stale && after == before
    }
}

/// What [`IoHandler::write_interest`] does.
pub open spec fn write_interest_post(
    before: Map<usize, Evented>,
    head: Option<(Bytes, Source<Bytes>)>,
    token: Token,
    after: Map<usize, Evented>,
    done: Dispatch,
) -> bool {
    if is_stream(before, token) && (head is Some ==> writing_at(before, token) is Waiting) {
        &&& done matches Dispatch::Done(outcome)
        &&& plain(outcome, token)
        &&& stream_handled(before, after, token, outcome.action)
        &&& reading_at(after, token) == reading_at(before, token)
        &&& writing_at(after, token) == match head {
            Some(chunk) => Writing::Writing { buf: chunk.0, rx: chunk.1 },
            None => Writing::Closed,
        }
    } else {
        done is Stale && after == before
    }
}

/// What [`IoHandler::read`] does.
pub open spec fn read_post(
    before: Map<usize, Evented>,
    token: Token,
    got: Received,
    after: Map<usize, Evented>,
    done: Dispatch,
) -> bool {
    if is_stream(before, token) && reading_at(before, token) is Reading {
        &&& done matches Dispatch::Done(outcome)
        &&& outcome.token == token
        &&& outcome.accept is None
        &&& outcome.write is None
        &&& !outcome.again
        &&& stream_handled(before, after, token, outcome.action)
        &&& writing_at(after, token) == writing_at(before, token)
        &&& read_done(reading_at(before, token), got, reading_at(after, token), outcome.read)
    } else {
        done is Stale && after == before
    }
}

/// Whether a write of `sent` fits the connection at `token`: it is writing,
/// and the socket took no more bytes than it holds.
pub open spec fn write_fits(conns: Map<usize, Evented>, token: Token, sent: Sent) -> bool {
    &&& is_stream(conns, token)
    &&& writing_at(conns, token) is Writing
    &&& sent matches Sent::Wrote(n) ==> n <= unsent_of(writing_at(conns, token)).len()
}

/// What [`IoHandler::write`] does.
pub open spec fn write_post(
    before: Map<usize, Evented>,
    token: Token,
    sent: Sent,
    after: Map<usize, Evented>,
    done: Dispatch,
) -> bool {
    if write_fits(before, token, sent) {
        &&& done matches Dispatch::Done(outcome)
        &&& outcome.token == token
        &&& outcome.accept is None
        &&& outcome.read is None
        &&& stream_handled(before, after, token, outcome.action)
        &&& reading_at(after, token) == reading_at(before, token)
        &&& write_done(
            writing_at(before, token),
            sent,
            writing_at(after, token),
            outcome.write,
            outcome.again,
        )
    } else {
        done is Stale && after == before
    }
}

/// A new connection has got a token that no entry had, has polled its two
/// endpoints, and its action is carried out.
pub open spec fn stream_installed(
    before: Map<usize, Evented>,
    after: Map<usize, Evented>,
    outcome: Outcome,
) -> bool {
    &&& !before.dom().contains(outcome.token.0)
    &&& outcome.token.0 < CAPACITY
    &&& outcome.accept is None
    &&& !outcome.again
    &&& stream_handled(before, after, outcome.token, outcome.action)
    &&& read_settled(reading_at(after, outcome.token), outcome.read)
    &&& outcome.read matches Some(parked) ==> parked is Idle
    &&& write_settled(writing_at(after, outcome.token), outcome.write)
}

/// What [`IoHandler::stream`] does.
pub open spec fn stream_post(
    before: Map<usize, Evented>,
    conn: Connection,
    after: Map<usize, Evented>,
    done: Dispatch,
) -> bool {
    if !(conn.reading() is New && conn.writing() is New) {
        done is Stale && after == before
    } else if before.dom().len() >= CAPACITY {
        done is Full && after == before
    } else {
        done matches Dispatch::Done(outcome) && stream_installed(before, after, outcome)
    }
}

/// What [`IoHandler::listen`] does.
pub open spec fn listen_post(
    before: Map<usize, Evented>,
    listener: Listener,
    after: Map<usize, Evented>,
    done: Dispatch,
) -> bool {
    if !(listener.state() is New) {
        done is Stale && after == before
    } else if before.dom().len() >= CAPACITY {
        done is Full && after == before
    } else {
        &&& done matches Dispatch::Done(outcome)
        &&& !before.dom().contains(outcome.token.0)
        &&& outcome.token.0 < CAPACITY
        &&& outcome.read is None
        &&& outcome.write is None
        &&& !outcome.again
        &&& listener_handled(before, after, outcome.token, outcome.action)
        &&& settled(state_at(after, outcome.token), outcome.action, outcome.accept)
        &&& outcome.accept matches Some(parked) ==> parked is Idle
    }
}

/// What [`IoHandler::accept_interest`] does.
pub open spec fn accept_interest_post(
    before: Map<usize, Evented>,
    tx: Option<Sink<Pair<Bytes>>>,
    token: Token,
    after: Map<usize, Evented>,
    done: Dispatch,
) -> bool {
    match tx {
        Some(tx) => if is_listener(before, token) && state_at(before, token) is Waiting {
            &&& done matches Dispatch::Done(outcome)
            &&& plain(outcome, token)
            &&& outcome.action == Action::Register(Interest::Read)
            &&& listener_handled(before, after, token, outcome.action)
            &&& state_at(after, token) == (State::Listening { tx })
        } else {
            done is Stale && after == before
        },
        None => if is_listener(before, token) {
            &&& done matches Dispatch::Done(outcome)
            &&& plain(outcome, token)
            &&& outcome.action == Action::Remove
            &&& after == before.remove(token.0)
        } else {
            done is Stale && after == before
        },
    }
}

/// What [`IoHandler::accept`] does.
pub open spec fn accept_post(
    before: Map<usize, Evented>,
    token: Token,
    accepted: Accepted,
    after: Map<usize, Evented>,
    done: Dispatch,
) -> bool {
    if is_listener(before, token) && state_at(before, token) is Listening {
        match accepted {
            Accepted::Socket => {
                &&& done matches Dispatch::Accepted(outcome, installed)
                &&& outcome.token == token
                &&& outcome.read is None
                &&& outcome.write is None
                &&& !outcome.again
                &&& settled(state_at(after, token), outcome.action, outcome.accept)
                &&& outcome.accept matches Some(parked) ==> parked is Busy
                &&& if outcome.action is Remove {
                    !after.dom().contains(token.0)
                } else {
                    is_listener(after, token)
                }
                &&& match installed {
                    Some(conn) => {
                        &&& conn.token != token
                        &&& stream_installed(before.remove(token.0), after.remove(token.0), conn)
                    },
                    None => before.dom().len() >= CAPACITY && kept_but(before, after, token),
                }
            },
            Accepted::WouldBlock => {
                &&& done matches Dispatch::Done(outcome)
                &&& plain(outcome, token)
                &&& outcome.action == Action::Register(Interest::Read)
                &&& after == before
            },
            Accepted::Failed => {
                &&& done matches Dispatch::Done(outcome)
                &&& plain(outcome, token)
                &&& outcome.action == Action::Remove
                &&& after == before.remove(token.0)
            },
        }
    } else {
        done is Stale && after == before
    }
}

/// What a readable event on `token` calls for: an accept on a listener that
/// listens, a read on a connection whose consumer has asked for bytes, and
/// nothing else.
pub open spec fn readable_io(conns: Map<usize, Evented>, token: Token) -> Option<Io> {
    if is_listener(conns, token) && state_at(conns, token) is Listening {
        Some(Io::Accept)
    } else if is_stream(conns, token) && reading_at(conns, token) is Reading {
        Some(Io::Read)
    } else {
        None
    }
}

/// What [`IoHandler::notify`] does: what the function for that message does.
pub open spec fn notify_post(
    before: Map<usize, Evented>,
    msg: Message,
    after: Map<usize, Evented>,
    done: Dispatch,
) -> bool {
    match msg {
        Message::Stream(conn) => stream_post(before, conn, after, done),
        Message::Accept(listener) => listen_post(before, listener, after, done),
        Message::AcceptInterest(tx, token) => accept_interest_post(before, tx, token, after, done),
        Message::ReadInterest(tx, token) => read_interest_post(before, tx, token, after, done),
        Message::WriteInterest(head, token) => write_interest_post(
            before,
            head,
            token,
            after,
            done,
        ),
    }
}

/// Two halves, one entry: after a step of the connection at `token`, its
/// entry is out of the slab if and only if both its halves are closed.
pub proof fn lemma_removed_iff_both_closed(
    before: Map<usize, Evented>,
    after: Map<usize, Evented>,
    token: Token,
    action: Action,
)
    requires
        stream_handled(before, after, token, action),
    ensures
        !after.dom().contains(token.0) <==> reading_at(after, token) is Closed && writing_at(
            after,
            token,
        ) is Closed,
{
}

/// Tokens are not shared: the token of a newly installed connection stood
/// for no entry, and every entry that was in the slab is still there, under
/// its token and unchanged.
pub proof fn lemma_installed_token_is_fresh(
    before: Map<usize, Evented>,
    after: Map<usize, Evented>,
    outcome: Outcome,
)
    requires
        stream_installed(before, after, outcome),
    ensures
        !before.dom().contains(outcome.token.0),
        forall|idx: usize| #[trigger]
            before.dom().contains(idx) ==> after.dom().contains(idx) && after[idx] == before[idx],
{
    assert forall|idx: usize| #[trigger] before.dom().contains(idx) implies after.dom().contains(
        idx,
    ) && after[idx] == before[idx] by {
        assert(after.remove(outcome.token.0).dom().contains(idx));
        assert(after.remove(outcome.token.0)[idx] == before.remove(outcome.token.0)[idx]);
    }
}

/// A step keeps the other sockets: whatever a step does to the entry at
/// `token`, every other entry stays in the slab, under its token and
/// unchanged, and none comes in.
pub proof fn lemma_step_keeps_others(
    before: Map<usize, Evented>,
    after: Map<usize, Evented>,
    token: Token,
)
    requires
        kept_but(before, after, token),
    ensures
        forall|idx: usize|
            idx != token.0 ==> (#[trigger] after.dom().contains(idx) <==> before.dom().contains(
                idx,
            )),
        forall|idx: usize|
            idx != token.0 && #[trigger] before.dom().contains(idx) ==> after[idx] == before[idx],
{
    assert forall|idx: usize| idx != token.0 implies (#[trigger] after.dom().contains(idx)
        <==> before.dom().contains(idx)) by {
        assert(after.remove(token.0).dom().contains(idx) <==> before.remove(
            token.0,
        ).dom().contains(idx));
    }
    assert forall|idx: usize| idx != token.0 && #[trigger] before.dom().contains(
        idx,
    ) implies after[idx] == before[idx] by {
        assert(after.remove(token.0)[idx] == before.remove(token.0)[idx]);
    }
}

/// Two maps that agree but at `second` still agree but there when the entry
/// at `first` is taken out of both.
proof fn lemma_remove_both(
    left: Map<usize, Evented>,
    right: Map<usize, Evented>,
    first: Token,
    second: Token,
)
    requires
        left.remove(second.0) == right.remove(second.0),
    ensures
        left.remove(first.0).remove(second.0) == right.remove(first.0).remove(second.0),
{
    assert(left.remove(first.0).remove(second.0) =~= left.remove(second.0).remove(first.0));
    assert(right.remove(first.0).remove(second.0) =~= right.remove(second.0).remove(first.0));
}

/// An accept in three steps: the listener at `token` steps to `listener`,
/// a connection may be installed, which gives `second`, and the listener's
/// action is carried out, which gives `after`. Then the listener stands at
/// `token` as the step left it, or is out; and with the listener's entry set
/// aside, the connection is installed in the slab as it was before.
proof fn lemma_accept_settled(
    before: Map<usize, Evented>,
    second: Map<usize, Evented>,
    after: Map<usize, Evented>,
    token: Token,
    listener: Listener,
    action: Action,
    installed: Option<Outcome>,
)
    requires
        before.dom().contains(token.0),
        match installed {
            Some(conn) => stream_installed(
                before.insert(token.0, Evented::Listener(listener)),
                second,
                conn,
            ),
            None => second == before.insert(token.0, Evented::Listener(listener)),
        },
        after == if action is Remove {
            second.remove(token.0)
        } else {
            second
        },
    ensures
        installed is None ==> kept_but(before, after, token),
        installed is None ==> after == if action is Remove {
            before.remove(token.0)
        } else {
            before.insert(token.0, Evented::Listener(listener))
        },
        installed matches Some(conn) ==> conn.token != token && stream_installed(
            before.remove(token.0),
            after.remove(token.0),
            conn,
        ),
        if action is Remove {
            !after.dom().contains(token.0)
        } else {
            is_listener(after, token) && state_at(after, token) == listener.state()
        },
{
    let first = before.insert(token.0, Evented::Listener(listener));
    assert(first.remove(token.0) =~= before.remove(token.0));
    assert(after.remove(token.0) =~= second.remove(token.0));
    match installed {
        Some(conn) => {
            let fresh = conn.token;
            lemma_remove_both(second, first, token, fresh);
            assert(second.remove(token.0).remove(fresh.0) =~= second.remove(fresh.0).remove(
                token.0,
            ));
            assert(first.remove(fresh.0).dom().contains(token.0));
            assert(second.remove(fresh.0).dom().contains(token.0));
            assert(second[token.0] == second.remove(fresh.0)[token.0]);
            assert(first[token.0] == first.remove(fresh.0)[token.0]);
            if second.dom().contains(fresh.0) {
                assert(second.remove(token.0)[fresh.0] == second[fresh.0]);
            }
        },
        None => {
            if action is Remove {
                assert(after =~= before.remove(token.0));
            }
        },
    }
}

/// An entry that is put back where it was changes nothing.
proof fn lemma_put_back(conns: Map<usize, Evented>, token: Token)
    requires
        conns.dom().contains(token.0),
    ensures
        conns.insert(token.0, conns[token.0]) == conns,
{
    assert(conns.insert(token.0, conns[token.0]) =~= conns);
}

/// A connection that is put at `token` and then handled by its action
/// stands there as it is, or has left with both halves closed.
proof fn lemma_stream_stepped(
    before: Map<usize, Evented>,
    token: Token,
    conn: Connection,
    action: Action,
    after: Map<usize, Evented>,
)
    requires
        action == action_of(conn.reading(), conn.writing()),
        after == if action is Remove {
            before.insert(token.0, Evented::Stream(conn)).remove(token.0)
        } else {
            before.insert(token.0, Evented::Stream(conn))
        },
    ensures
        stream_handled(before, after, token, action),
        reading_at(after, token) == conn.reading(),
        writing_at(after, token) == conn.writing(),
{
    assert(after.remove(token.0) =~= before.remove(token.0));
}

/// A listener that is put at `token` and then handled by `action` stands
/// there as it is, or has left.
proof fn lemma_listener_stepped(
    before: Map<usize, Evented>,
    token: Token,
    listener: Listener,
    action: Action,
    after: Map<usize, Evented>,
)
    requires
        after == if action is Remove {
            before.insert(token.0, Evented::Listener(listener)).remove(token.0)
        } else {
            before.insert(token.0, Evented::Listener(listener))
        },
    ensures
        listener_handled(before, after, token, action),
        !(action is Remove) ==> state_at(after, token) == listener.state(),
        action is Remove ==> state_at(after, token) is Waiting,
{
    assert(after.remove(token.0) =~= before.remove(token.0));
}

/// The socket state machines of one event loop, each under its token.
pub struct IoHandler {
    conns: Table,
}

impl View for IoHandler {
    type V = Map<usize, Evented>;

    closed spec fn view(&self) -> Map<usize, Evented> {
        table_view(self.conns)
    }
}

impl IoHandler {
    #[verifier::type_invariant]
    spec fn well_formed(self) -> bool {
        &&& table_limit(self.conns) == CAPACITY
        &&& table_view(self.conns).dom().finite()
        &&& forall|idx: usize| #[trigger]
            table_view(self.conns).dom().contains(idx) ==> idx < CAPACITY
    }

    /// A dispatcher without sockets.
    pub fn new() -> (handler: IoHandler)
        ensures
            handler@ == no_entries(),
    {
        IoHandler { conns: table_new(CAPACITY) }
    }

    /// The connection at `token`, to be changed in place.
    fn stream_at(&mut self, token: Token) -> (found: Option<&mut Connection>)
        ensures
            match found {
                Some(conn) => {
                    &&& token.0 < CAPACITY
                    &&& is_stream(old(self)@, token)
                    &&& *conn == old(self)@[token.0]->Stream_0
                    &&& final(self)@ == old(self)@.insert(token.0, Evented::Stream(*final(conn)))
                },
                None => !is_stream(old(self)@, token) && final(self)@ == old(self)@,
            },
    {
        proof {
            use_type_invariant(&*self);
        }
        if token.0 >= CAPACITY {
            return None;
        }
        match table_get_mut(&mut self.conns, token.0) {
            Some(entry) => match entry {
                Evented::Stream(conn) => Some(conn),
                Evented::Listener(_) => {
                    proof {
                        lemma_put_back(old(self)@, token);
                    }
                    None
                },
            },
            None => None,
        }
    }

    /// The listener at `token`, to be changed in place.
    fn listener_at(&mut self, token: Token) -> (found: Option<&mut Listener>)
        ensures
            match found {
                Some(listener) => {
                    &&& token.0 < CAPACITY
                    &&& is_listener(old(self)@, token)
                    &&& *listener == old(self)@[token.0]->Listener_0
                    &&& final(self)@ == old(self)@.insert(
                        token.0,
                        Evented::Listener(*final(listener)),
                    )
                },
                None => !is_listener(old(self)@, token) && final(self)@ == old(self)@,
            },
    {
        proof {
            use_type_invariant(&*self);
        }
        if token.0 >= CAPACITY {
            return None;
        }
        match table_get_mut(&mut self.conns, token.0) {
            Some(entry) => match entry {
                Evented::Listener(listener) => Some(listener),
                Evented::Stream(_) => {
                    proof {
                        lemma_put_back(old(self)@, token);
                    }
                    None
                },
            },
            None => None,
        }
    }

    /// Carries out the action that a listener has asked for: an entry that
    /// is to be removed leaves the slab.
    fn handle_listener_action(&mut self, action: Action, token: Token)
        requires
            token.0 < CAPACITY,
            old(self)@.dom().contains(token.0),
        ensures
            final(self)@ == if action is Remove {
                old(self)@.remove(token.0)
            } else {
                old(self)@
            },
    {
        proof {
            use_type_invariant(&*self);
        }
        match action {
            Action::Remove => {
                let _ = table_remove(&mut self.conns, token.0);
            },
            _ => {},
        }
    }

    /// Carries out the action that a connection has asked for: an entry
    /// that is to be removed leaves the slab.
    fn handle_stream_action(&mut self, action: Action, token: Token)
        requires
            token.0 < CAPACITY,
            old(self)@.dom().contains(token.0),
        ensures
            final(self)@ == if action is Remove {
                old(self)@.remove(token.0)
            } else {
                old(self)@
            },
    {
        proof {
            use_type_invariant(&*self);
        }
        match action {
            Action::Remove => {
                let _ = table_remove(&mut self.conns, token.0);
            },
            _ => {},
        }
    }

    /// Puts a new connection into the slab, starts it, and carries out its
    /// action; a full slab drops the connection.
    fn install(&mut self, conn: Connection) -> (installed: Option<Outcome>)
        requires
            conn.reading() is New,
            conn.writing() is New,
        ensures
            installed is Some <==> old(self)@.dom().len() < CAPACITY,
            match installed {
                Some(outcome) => stream_installed(old(self)@, final(self)@, outcome),
                None => final(self)@ == old(self)@,
            },
    {
        proof {
            use_type_invariant(&*self);
        }
        let token = match table_insert(&mut self.conns, Evented::Stream(conn)) {
            Ok(idx) => Token(idx),
            Err(_) => {
                return None;
            },
        };
        let (action, parks) = match self.stream_at(token) {
            Some(conn) => conn.init(),
            None => {
                return None;
            },
        };
        let ghost stepped = self@[token.0]->Stream_0;
        let ghost mid = self@;
        self.handle_stream_action(action, token);
        proof {
            assert(mid =~= old(self)@.insert(token.0, Evented::Stream(stepped)));
            lemma_stream_stepped(old(self)@, token, stepped, action, self@);
        }
        Some(
            Outcome {
                token,
                action,
                accept: None,
                read: parks.read,
                write: parks.write,
                again: false,
            },
        )
    }

    /// Installs a new listener: it gets a token, polls its sink, and its
    /// action is carried out.
    pub fn listen(&mut self, listener: Listener) -> (done: Dispatch)
        ensures
            listen_post(old(self)@, listener, final(self)@, done),
    {
        proof {
            use_type_invariant(&*self);
        }
        if !listener.is_new() {
            return Dispatch::Stale;
        }
        let token = match table_insert(&mut self.conns, Evented::Listener(listener)) {
            Ok(idx) => Token(idx),
            Err(_) => {
                return Dispatch::Full;
            },
        };
        let (action, accept) = match self.listener_at(token) {
            Some(listener) => listener.listen(),
            None => {
                return Dispatch::Stale;
            },
        };
        let ghost stepped = self@[token.0]->Listener_0;
        let ghost mid = self@;
        self.handle_listener_action(action, token);
        proof {
            assert(mid =~= old(self)@.insert(token.0, Evented::Listener(stepped)));
            lemma_listener_stepped(old(self)@, token, stepped, action, self@);
        }
        Dispatch::Done(Outcome { token, action, accept, read: None, write: None, again: false })
    }

    /// The consumer of the listener at `token` asks for the next connection
    /// and hands the sink for it, or has gone, which ends the listener.
    pub fn accept_interest(&mut self, tx: Option<Sink<Pair<Bytes>>>, token: Token) -> (done:
        Dispatch)
        ensures
            accept_interest_post(old(self)@, tx, token, final(self)@, done),
    {
        let action = match self.listener_at(token) {
            Some(listener) => match tx {
                Some(tx) => {
                    if listener.is_waiting() {
                        listener.ready(tx)
                    } else {
                        proof {
                            lemma_put_back(old(self)@, token);
                        }
                        return Dispatch::Stale;
                    }
                },
                None => Action::remove(),
            },
            None => {
                return Dispatch::Stale;
            },
        };
        let ghost stepped = self@[token.0]->Listener_0;
        self.handle_listener_action(action, token);
        proof {
            lemma_listener_stepped(old(self)@, token, stepped, action, self@);
            if action is Remove {
                assert(self@ =~= old(self)@.remove(token.0));
            }
        }
        Dispatch::Done(
            Outcome { token, action, accept: None, read: None, write: None, again: false },
        )
    }

    /// The socket at `token` was readable, and `accepted` is what the accept
    /// on it gave. An accepted connection is installed before the listener's
    /// action is carried out.
    pub fn accept(&mut self, token: Token, accepted: Accepted) -> (done: Dispatch)
        ensures
            accept_post(old(self)@, token, accepted, final(self)@, done),
    {
        let step = match self.listener_at(token) {
            Some(listener) => {
                if listener.is_listening() {
                    listener.accept(accepted)
                } else {
                    proof {
                        lemma_put_back(old(self)@, token);
                    }
                    return Dispatch::Stale;
                }
            },
            None => {
                return Dispatch::Stale;
            },
        };
        let ghost stepped = self@[token.0]->Listener_0;
        let ghost first = self@;
        let installed = match step.conn {
            Some(conn) => self.install(conn),
            None => None,
        };
        let ghost second = self@;
        proof {
            // The listener is still in the slab: an install changes no entry
            // but the one it puts in.
            if installed is Some {
                lemma_step_keeps_others(first, second, installed->0.token);
            }
            assert(second.dom().contains(token.0));
        }
        self.handle_listener_action(step.action, token);
        let outcome = Outcome {
            token,
            action: step.action,
            accept: step.parked,
            read: None,
            write: None,
            again: false,
        };
        proof {
            lemma_put_back(old(self)@, token);
            lemma_accept_settled(
                old(self)@,
                second,
                self@,
                token,
                stepped,
                step.action,
                installed,
            );
        }
        match accepted {
            Accepted::Socket => Dispatch::Accepted(outcome, installed),
            _ => Dispatch::Done(outcome),
        }
    }

    /// Installs a new connection: it gets a token, polls its two endpoints,
    /// and its action is carried out.
    pub fn stream(&mut self, conn: Connection) -> (done: Dispatch)
        ensures
            stream_post(old(self)@, conn, final(self)@, done),
    {
        if !conn.is_new() {
            return Dispatch::Stale;
        }
        match self.install(conn) {
            Some(outcome) => Dispatch::Done(outcome),
            None => Dispatch::Full,
        }
    }

    /// The socket at `token` was readable, and `got` is what the read on it
    /// gave.
    pub fn read(&mut self, token: Token, got: Received) -> (done: Dispatch)
        ensures
            read_post(old(self)@, token, got, final(self)@, done),
    {
        let (action, read) = match self.stream_at(token) {
            Some(conn) => {
                if conn.is_reading() {
                    conn.read(got)
                } else {
                    proof {
                        lemma_put_back(old(self)@, token);
                    }
                    return Dispatch::Stale;
                }
            },
            None => {
                return Dispatch::Stale;
            },
        };
        let ghost stepped = self@[token.0]->Stream_0;
        self.handle_stream_action(action, token);
        proof {
            lemma_stream_stepped(old(self)@, token, stepped, action, self@);
        }
        Dispatch::Done(Outcome { token, action, accept: None, read, write: None, again: false })
    }

    /// The socket at `token` was writable, and `sent` is what the write of
    /// its unsent bytes gave.
    pub fn write(&mut self, token: Token, sent: Sent) -> (done: Dispatch)
        ensures
            write_post(old(self)@, token, sent, final(self)@, done),
    {
        let written = match self.stream_at(token) {
            Some(conn) => {
                let fits = match conn.write_buf() {
                    Some(buf) => match sent {
                        Sent::Wrote(n) => n <= crate::buffer::bytes_len(&buf),
                        _ => true,
                    },
                    None => false,
                };
                if fits {
                    conn.write(sent)
                } else {
                    proof {
                        lemma_put_back(old(self)@, token);
                    }
                    return Dispatch::Stale;
                }
            },
            None => {
                return Dispatch::Stale;
            },
        };
        let ghost stepped = self@[token.0]->Stream_0;
        self.handle_stream_action(written.action, token);
        proof {
            lemma_stream_stepped(old(self)@, token, stepped, written.action, self@);
        }
        Dispatch::Done(
            Outcome {
                token,
                action: written.action,
                accept: None,
                read: None,
                write: written.parked,
                again: written.again,
            },
        )
    }

    /// The consumer of the connection at `token` asks for the next chunk
    /// and hands the sink for it, or has gone.
    pub fn read_interest(&mut self, tx: Option<Sink<Bytes>>, token: Token) -> (done: Dispatch)
        ensures
            read_interest_post(old(self)@, tx, token, final(self)@, done),
    {
        proof {
            use_type_invariant(&*self);
        }
        let action = match self.stream_at(token) {
            Some(conn) => match tx {
                Some(tx) => {
                    if conn.is_read_waiting() {
                        conn.read_interest(tx)
                    } else {
                        proof {
                            lemma_put_back(old(self)@, token);
                        }
                        return Dispatch::Stale;
                    }
                },
                None => conn.read_close(),
            },
            None => {
                return Dispatch::Stale;
            },
        };
        let ghost stepped = self@[token.0]->Stream_0;
        self.handle_stream_action(action, token);
        proof {
            lemma_stream_stepped(old(self)@, token, stepped, action, self@);
        }
        Dispatch::Done(
            Outcome { token, action, accept: None, read: None, write: None, again: false },
        )
    }

    /// The producer of the connection at `token` has sent a chunk, which
    /// comes with the source of what follows, or has ended.
    pub fn write_interest(&mut self, head: Option<(Bytes, Source<Bytes>)>, token: Token) -> (done:
        Dispatch)
        ensures
            write_interest_post(old(self)@, head, token, final(self)@, done),
    {
        let action = match self.stream_at(token) {
            Some(conn) => match head {
                Some((bytes, rest)) => {
                    if conn.is_write_waiting() {
                        conn.write_interest(bytes, rest)
                    } else {
                        proof {
                            lemma_put_back(old(self)@, token);
                        }
                        return Dispatch::Stale;
                    }
                },
                None => conn.write_close(),
            },
            None => {
                return Dispatch::Stale;
            },
        };
        let ghost stepped = self@[token.0]->Stream_0;
        self.handle_stream_action(action, token);
        proof {
            lemma_stream_stepped(old(self)@, token, stepped, action, self@);
        }
        Dispatch::Done(
            Outcome { token, action, accept: None, read: None, write: None, again: false },
        )
    }

    /// What a readable event on `token` calls for.
    pub fn readable(&self, token: Token) -> (io: Option<Io>)
        ensures
            io == readable_io(self@, token),
    {
        proof {
            use_type_invariant(self);
        }
        if token.0 >= CAPACITY {
            return None;
        }
        match table_get(&self.conns, token.0) {
            Some(entry) => match entry {
                Evented::Listener(listener) => {
                    if listener.is_listening() {
                        Some(Io::Accept)
                    } else {
                        None
                    }
                },
                Evented::Stream(conn) => {
                    if conn.is_reading() {
                        Some(Io::Read)
                    } else {
                        None
                    }
                },
            },
            None => None,
        }
    }

    /// What a writable event on `token` calls for: a write of these bytes,
    /// the unsent bytes of a connection that is writing, and nothing else.
    pub fn writable(&self, token: Token) -> (buf: Option<Bytes>)
        ensures
            buf is Some == (is_stream(self@, token) && writing_at(self@, token) is Writing),
            buf matches Some(bytes) ==> bytes_view(bytes) == unsent_of(writing_at(self@, token)),
    {
        proof {
            use_type_invariant(self);
        }
        if token.0 >= CAPACITY {
            return None;
        }
        match table_get(&self.conns, token.0) {
            Some(entry) => match entry {
                Evented::Stream(conn) => conn.write_buf(),
                Evented::Listener(_) => None,
            },
            None => None,
        }
    }

    /// Takes a message from another thread.
    pub fn notify(&mut self, msg: Message) -> (done: Dispatch)
        ensures
            notify_post(old(self)@, msg, final(self)@, done),
    {
        match msg {
            Message::Stream(conn) => self.stream(conn),
            Message::Accept(listener) => self.listen(listener),
            Message::AcceptInterest(tx, token) => self.accept_interest(tx, token),
            Message::ReadInterest(tx, token) => self.read_interest(tx, token),
            Message::WriteInterest(head, token) => self.write_interest(head, token),
        }
    }
}

} // verus!
