//! The state machine of a connected socket.
//!
//! A connection has two halves that advance independently. The reading half
//! passes what the socket delivers to a sink, and reads only while the
//! consumer has asked for more. The writing half takes chunks from a source
//! and writes them to the socket, and asks for writability only while it
//! holds unsent bytes. The connection stays in the slab until both halves
//! are closed.

use crate::buffer::{bytes_clone, bytes_len, bytes_skip, bytes_view};
use crate::endpoint::{
    fail, pair, poll_busy, poll_sink, poll_source, send, Pair, Parked, Polled, Sink, Source, Supplied,
};
use crate::net::{Action, Interest};
use bytes::Bytes;
use vstd::pervasive::unreached;
use vstd::prelude::*;

verus! {

/// Where the reading half stands.
pub enum Reading {
    /// Not yet started; it holds the sink to its consumer.
    New { tx: Sink<Bytes> },
    /// The sink is away: polled, or parked until the consumer asks.
    Waiting,
    /// The consumer has asked for bytes; the sink is ready to take them.
    Reading { tx: Sink<Bytes> },
    /// No more bytes are read.
    Closed,
}

/// Where the writing half stands.
pub enum Writing {
    /// Not yet started; it holds the source of its producer.
    New { rx: Source<Bytes> },
    /// The source is away: polled, or parked until the producer sends.
    Waiting,
    /// `buf` holds the unsent bytes of the current chunk, and `rx` delivers
    /// the chunks behind it.
    Writing { buf: Bytes, rx: Source<Bytes> },
    /// No more bytes are written.
    Closed,
}

impl Reading {
    fn new_to_waiting(&mut self) -> (tx: Sink<Bytes>)
        requires
            *old(self) is New,
        ensures
            *final(self) is Waiting,
            *old(self) == (Reading::New { tx }),
    {
        let mut held = Reading::Waiting;
        std::mem::swap(self, &mut held);
        match held {
            Reading::New { tx } => tx,
            _ => unreached(),
        }
    }

    fn waiting_to_reading(&mut self, tx: Sink<Bytes>)
        requires
            *old(self) is Waiting,
        ensures
            *final(self) == (Reading::Reading { tx }),
    {
        *self = Reading::Reading { tx: tx };
    }

    fn reading_to_waiting(&mut self) -> (tx: Sink<Bytes>)
        requires
            *old(self) is Reading,
        ensures
            *final(self) is Waiting,
            *old(self) == (Reading::Reading { tx }),
    {
        let mut held = Reading::Waiting;
        std::mem::swap(self, &mut held);
        match held {
            Reading::Reading { tx } => tx,
            _ => unreached(),
        }
    }

    fn close(&mut self)
        ensures
            *final(self) is Closed,
    {
        *self = Reading::Closed;
    }
}

impl Writing {
    fn new_to_waiting(&mut self) -> (rx: Source<Bytes>)
        requires
            *old(self) is New,
        ensures
            *final(self) is Waiting,
            *old(self) == (Writing::New { rx }),
    {
        let mut held = Writing::Waiting;
        std::mem::swap(self, &mut held);
        match held {
            Writing::New { rx } => rx,
            _ => unreached(),
        }
    }

    fn waiting_to_writing(&mut self, buf: Bytes, rx: Source<Bytes>)
        requires
            *old(self) is Waiting,
        ensures
            *final(self) == (Writing::Writing { buf, rx }),
    {
        *self = Writing::Writing { buf: buf, rx: rx };
    }

    fn writing_to_waiting(&mut self) -> (held: (Bytes, Source<Bytes>))
        requires
            *old(self) is Writing,
        ensures
            *final(self) is Waiting,
            *old(self) == (Writing::Writing { buf: held.0, rx: held.1 }),
    {
        let mut held = Writing::Waiting;
        std::mem::swap(self, &mut held);
        match held {
            Writing::Writing { buf, rx } => (buf, rx),
            _ => unreached(),
        }
    }

    /// Closes the half. Bytes that it still holds are discarded.
    fn close(&mut self)
        ensures
            *final(self) is Closed,
    {
        *self = Writing::Closed;
    }
}

/// What the non-blocking read on the socket gave.
pub enum Received {
    /// The bytes that were read. None at all is the peer's orderly end.
    Data(Bytes),
    /// Nothing to read yet.
    WouldBlock,
    /// The socket reported an error.
    Failed,
}

/// What the non-blocking write of the unsent bytes to the socket gave.
#[derive(Clone, Copy, Debug, PartialEq, Eq, Structural)]
pub enum Sent {
    /// The socket took this many of the unsent bytes, from the first on.
    Wrote(usize),
    /// The socket takes no bytes yet.
    WouldBlock,
    /// The socket reported an error.
    Failed,
}

/// The endpoints that a connection waits on: each is to be parked with a
/// callback that wakes the connection by a message.
pub struct Parks {
    /// The reading half's sink, until the consumer asks for bytes.
    pub read: Option<Parked<Bytes>>,
    /// The writing half's source, until the producer sends.
    pub write: Option<Source<Bytes>>,
}

/// What a connection has done on a writable event.
pub struct Written {
    /// What the dispatcher does with the connection.
    pub action: Action,
    /// The source to wake the writing half from, where the chunk is written
    /// out.
    pub parked: Option<Source<Bytes>>,
    /// Unsent bytes are left and the socket may take more: write again.
    pub again: bool,
}

/// What the dispatcher is to do for a connection whose halves stand at
/// `reading` and `writing`.
pub open spec fn action_of(reading: Reading, writing: Writing) -> Action {
    if reading is Reading && writing is Writing {
        Action::Register(Interest::ReadWrite)
    } else if reading is Reading {
        Action::Register(Interest::Read)
    } else if writing is Writing {
        Action::Register(Interest::Write)
    } else if reading is Closed && writing is Closed {
        Action::Remove
    } else {
        Action::Wait
    }
}

/// The ways in which the reading half comes out of a poll of its sink:
/// reading, closed, or waiting with the sink parked.
pub open spec fn read_settled(reading: Reading, parked: Option<Parked<Bytes>>) -> bool {
    ||| reading is Reading && parked is None
    ||| reading is Closed && parked is None
    ||| reading is Waiting && parked is Some
}

/// The ways in which the writing half comes out of a poll of its source:
/// writing, closed, or waiting with the source parked.
pub open spec fn write_settled(writing: Writing, parked: Option<Source<Bytes>>) -> bool {
    ||| writing is Writing && parked is None
    ||| writing is Closed && parked is None
    ||| writing is Waiting && parked is Some
}

/// The bytes of the current chunk that a writing half still holds.
pub open spec fn unsent_of(writing: Writing) -> Seq<u8> {
    match writing {
        Writing::Writing { buf, rx } => bytes_view(buf),
        _ => Seq::empty(),
    }
}

/// What a read does to the reading half: from `before`, on what the socket
/// gave, to `after`, with `parked` to be woken from.
///
/// With bytes the half ends as a poll of its sink leaves it, and a parked
/// sink is a busy one; with no bytes at all, and after an error, it is
/// closed; without data it stays as it was.
pub open spec fn read_done(
    before: Reading,
    got: Received,
    after: Reading,
    parked: Option<Parked<Bytes>>,
) -> bool {
    match got {
        Received::Data(bytes) => if bytes_view(bytes).len() == 0 {
            after is Closed && parked is None
        } else {
            &&& read_settled(after, parked)
            &&& parked matches Some(waits) ==> waits is Busy
        },
        Received::WouldBlock => after == before && parked is None,
        Received::Failed => after is Closed && parked is None,
    }
}

/// What a write does to the writing half: from `before`, on what the socket
/// took, to `after`, with `parked` to be woken from, and `again` where the
/// socket may take more at once.
///
/// The bytes that the socket took leave the front of the unsent bytes. While
/// some are left the half keeps writing, and after a partial write asks to
/// write again. When none are left the half waits with its source parked.
/// After an error it is closed.
pub open spec fn write_done(
    before: Writing,
    sent: Sent,
    after: Writing,
    parked: Option<Source<Bytes>>,
    again: bool,
) -> bool {
    match sent {
        Sent::Wrote(n) => if n < unsent_of(before).len() {
            &&& after is Writing
            &&& after->Writing_rx == before->Writing_rx
            &&& unsent_of(after) == unsent_of(before).skip(n as int)
            &&& parked is None
            &&& again
        } else {
            &&& after is Waiting
            &&& parked == Some(before->Writing_rx)
            &&& !again
        },
        Sent::WouldBlock => {
            &&& after is Writing
            &&& after->Writing_rx == before->Writing_rx
            &&& unsent_of(after) == unsent_of(before)
            &&& parked is None
            &&& !again
        },
        Sent::Failed => {
            &&& after is Closed
            &&& parked is None
            &&& !again
        },
    }
}

/// A connected socket's state machine.
pub struct Connection {
    reading: Reading,
    writing: Writing,
}

impl Connection {
    /// Where the reading half stands.
    pub closed spec fn reading(&self) -> Reading {
        self.reading
    }

    /// Where the writing half stands.
    pub closed spec fn writing(&self) -> Writing {
        self.writing
    }

    /// The bytes of the current chunk that the socket has not taken yet.
    pub open spec fn unsent(&self) -> Seq<u8> {
        unsent_of(self.writing())
    }

    /// A new connection, and the two ends that its user holds: the sink
    /// whose bytes the connection writes to the socket, and the source
    /// that delivers what it reads.
    pub fn of() -> (made: (Connection, Pair<Bytes>))
        ensures
            made.0.reading() is New,
            made.0.writing() is New,
    {
        Connection::with_ends(pair(), pair())
    }

    /// A new connection over two sequences, and the two ends that its user
    /// holds. Of the sequence that carries what is read, the connection
    /// keeps the sink and its user gets the source; of the sequence that
    /// carries what is to be written, the connection keeps the source and
    /// its user gets the sink.
    pub fn with_ends(read: Pair<Bytes>, write: Pair<Bytes>) -> (made: (Connection, Pair<Bytes>))
        ensures
            made.0.reading() == (Reading::New { tx: read.0 }),
            made.0.writing() == (Writing::New { rx: write.1 }),
            made.1 == (write.0, read.1),
    {
        let (read_tx, read_rx) = read;
        let (write_tx, write_rx) = write;
        (Connection::new(read_tx, write_rx), (write_tx, read_rx))
    }

    /// A new connection that delivers what it reads into `tx` and writes
    /// what `rx` supplies.
    pub fn new(tx: Sink<Bytes>, rx: Source<Bytes>) -> (conn: Connection)
        ensures
            conn.reading() == (Reading::New { tx }),
            conn.writing() == (Writing::New { rx }),
    {
        Connection { reading: Reading::New { tx: tx }, writing: Writing::New { rx: rx } }
    }

    pub fn is_new(&self) -> (b: bool)
        ensures
            b == (self.reading() is New && self.writing() is New),
    {
        let reading = match self.reading {
            Reading::New { .. } => true,
            _ => false,
        };
        let writing = match self.writing {
            Writing::New { .. } => true,
            _ => false,
        };
        reading && writing
    }

    pub fn is_reading(&self) -> (b: bool)
        ensures
            b == (self.reading() is Reading),
    {
        match self.reading {
            Reading::Reading { .. } => true,
            _ => false,
        }
    }

    pub fn is_read_waiting(&self) -> (b: bool)
        ensures
            b == (self.reading() is Waiting),
    {
        match self.reading {
            Reading::Waiting => true,
            _ => false,
        }
    }

    pub fn is_read_closed(&self) -> (b: bool)
        ensures
            b == (self.reading() is Closed),
    {
        match self.reading {
            Reading::Closed => true,
            _ => false,
        }
    }

    pub fn is_writing(&self) -> (b: bool)
        ensures
            b == (self.writing() is Writing),
    {
        match self.writing {
            Writing::Writing { .. } => true,
            _ => false,
        }
    }

    pub fn is_write_waiting(&self) -> (b: bool)
        ensures
            b == (self.writing() is Waiting),
    {
        match self.writing {
            Writing::Waiting => true,
            _ => false,
        }
    }

    pub fn is_write_closed(&self) -> (b: bool)
        ensures
            b == (self.writing() is Closed),
    {
        match self.writing {
            Writing::Closed => true,
            _ => false,
        }
    }

    /// The unsent bytes of the current chunk, while the writing half holds
    /// one.
    pub fn write_buf(&self) -> (buf: Option<Bytes>)
        ensures
            buf is Some == (self.writing() is Writing),
            buf matches Some(b) ==> bytes_view(b) == self.unsent(),
    {
        match &self.writing {
            Writing::Writing { buf, .. } => Some(bytes_clone(buf)),
            _ => None,
        }
    }

    /// Starts a new connection: the sink of the reading half and the source
    /// of the writing half are polled, and each half goes on as
    /// [`Connection::read_polled`] and [`Connection::write_polled`] say for what the
    /// polls found.
    pub fn init(&mut self) -> (step: (Action, Parks))
        requires
            old(self).reading() is New,
            old(self).writing() is New,
        ensures
            read_settled(final(self).reading(), step.1.read),
            step.1.read matches Some(parked) ==> parked is Idle,
            write_settled(final(self).writing(), step.1.write),
            step.0 == action_of(final(self).reading(), final(self).writing()),
    {
        let tx = self.reading.new_to_waiting();
        let read = self.read_polled(poll_sink(tx));
        let rx = self.writing.new_to_waiting();
        let write = self.write_polled(poll_source(rx));
        (self.action(), Parks { read, write })
    }

    /// Takes up the sink of a waiting reading half after a poll. A ready
    /// sink makes the half read; a dropped one closes it; one that is
    /// pending stays away, and is handed back to be parked until the
    /// consumer asks. The writing half is not touched.
    pub fn read_polled(&mut self, polled: Polled<Bytes>) -> (parked: Option<Parked<Bytes>>)
        requires
            old(self).reading() is Waiting,
        ensures
            final(self).writing() == old(self).writing(),
            match polled {
                Polled::Ready(tx) => final(self).reading() == (Reading::Reading { tx })
                    && parked is None,
                Polled::Dropped => final(self).reading() is Closed && parked is None,
                Polled::Pending(waits) => final(self).reading() is Waiting && parked == Some(
                    waits,
                ),
            },
            read_settled(final(self).reading(), parked),
    {
        match polled {
            Polled::Ready(tx) => {
                self.reading.waiting_to_reading(tx);
                None
            },
            Polled::Dropped => {
                self.reading.close();
                None
            },
            Polled::Pending(waits) => Some(waits),
        }
    }

    /// Takes up the source of a waiting writing half after a poll. A chunk
    /// makes the half write; the end or a failure of the source closes it; a
    /// source that is pending stays away, and is handed back to be parked
    /// until the producer sends. The reading half is not touched.
    pub fn write_polled(&mut self, supplied: Supplied) -> (parked: Option<Source<Bytes>>)
        requires
            old(self).writing() is Waiting,
        ensures
            final(self).reading() == old(self).reading(),
            match supplied {
                Supplied::Chunk(buf, rx) => final(self).writing() == (Writing::Writing { buf, rx })
                    && parked is None,
                Supplied::End => final(self).writing() is Closed && parked is None,
                Supplied::Failed => final(self).writing() is Closed && parked is None,
                Supplied::Pending(rx) => final(self).writing() is Waiting && parked == Some(rx),
            },
            write_settled(final(self).writing(), parked),
    {
        match supplied {
            Supplied::Chunk(bytes, rx) => {
                self.writing.waiting_to_writing(bytes, rx);
                None
            },
            Supplied::End => {
                self.writing.close();
                None
            },
            Supplied::Failed => {
                self.writing.close();
                None
            },
            Supplied::Pending(rx) => Some(rx),
        }
    }

    /// The consumer has asked for bytes, and `tx` is the sink that takes
    /// them: the reading half reads.
    pub fn read_interest(&mut self, tx: Sink<Bytes>) -> (action: Action)
        requires
            old(self).reading() is Waiting,
        ensures
            final(self).reading() == (Reading::Reading { tx }),
            final(self).writing() == old(self).writing(),
            action == action_of(final(self).reading(), final(self).writing()),
    {
        self.reading.waiting_to_reading(tx);
        self.action()
    }

    /// The consumer is gone: the reading half closes, wherever it stood.
    pub fn read_close(&mut self) -> (action: Action)
        ensures
            final(self).reading() is Closed,
            final(self).writing() == old(self).writing(),
            action == action_of(final(self).reading(), final(self).writing()),
    {
        self.reading.close();
        self.action()
    }

    /// The socket is readable, and `got` is what the read on it gave.
    ///
    /// Bytes are sent to the consumer; the sink is then polled, and the half
    /// goes on as [`Connection::read_polled`] says. No bytes at all is the peer's
    /// orderly end, which closes the half. Without data the half keeps
    /// reading. After an error the consumer's sequence is failed, and the
    /// half closes. The writing half is not touched.
    pub fn read(&mut self, got: Received) -> (step: (Action, Option<Parked<Bytes>>))
        requires
            old(self).reading() is Reading,
        ensures
            final(self).writing() == old(self).writing(),
            step.0 == action_of(final(self).reading(), final(self).writing()),
            read_done(old(self).reading(), got, final(self).reading(), step.1),
    {
        let tx = self.reading.reading_to_waiting();
        let parked = match got {
            Received::Data(bytes) => {
                if bytes_len(&bytes) == 0 {
                    self.reading.close();
                    None
                } else {
                    let busy = send(tx, bytes);
                    self.read_polled(poll_busy(busy))
                }
            },
            Received::WouldBlock => {
                self.reading.waiting_to_reading(tx);
                None
            },
            Received::Failed => {
                fail(tx);
                self.reading.close();
                None
            },
        };
        (self.action(), parked)
    }

    /// The producer has sent `bytes`, and `rx` delivers what follows: the
    /// writing half writes.
    pub fn write_interest(&mut self, bytes: Bytes, rx: Source<Bytes>) -> (action: Action)
        requires
            old(self).writing() is Waiting,
        ensures
            final(self).writing() == (Writing::Writing { buf: bytes, rx }),
            final(self).reading() == old(self).reading(),
            action == action_of(final(self).reading(), final(self).writing()),
    {
        self.writing.waiting_to_writing(bytes, rx);
        self.action()
    }

    /// The producer has ended its sequence: the writing half closes,
    /// wherever it stood. Bytes that it still holds are discarded.
    pub fn write_close(&mut self) -> (action: Action)
        ensures
            final(self).writing() is Closed,
            final(self).reading() == old(self).reading(),
            action == action_of(final(self).reading(), final(self).writing()),
    {
        self.writing.close();
        self.action()
    }

    /// The socket is writable, and `sent` is what the write of the unsent
    /// bytes to it gave.
    ///
    /// The bytes that the socket took leave the buffer, in order. While
    /// bytes are left the half keeps writing, and after a partial write asks
    /// to write again at once. When none are left the half waits, and its
    /// source is handed back to be parked until the producer sends. After an
    /// error the half closes. The reading half is not touched.
    pub fn write(&mut self, sent: Sent) -> (done: Written)
        requires
            old(self).writing() is Writing,
            sent matches Sent::Wrote(n) ==> n <= unsent_of(old(self).writing()).len(),
        ensures
            final(self).reading() == old(self).reading(),
            done.action == action_of(final(self).reading(), final(self).writing()),
            write_done(old(self).writing(), sent, final(self).writing(), done.parked, done.again),
    {
        let (buf, rx) = self.writing.writing_to_waiting();
        let mut buf = buf;
        match sent {
            Sent::Wrote(n) => {
                bytes_skip(&mut buf, n);
                if bytes_len(&buf) == 0 {
                    Written { action: self.action(), parked: Some(rx), again: false }
                } else {
                    self.writing.waiting_to_writing(buf, rx);
                    Written { action: self.action(), parked: None, again: true }
                }
            },
            Sent::WouldBlock => {
                self.writing.waiting_to_writing(buf, rx);
                Written { action: self.action(), parked: None, again: false }
            },
            Sent::Failed => {
                self.writing.close();
                Written { action: self.action(), parked: None, again: false }
            },
        }
    }

    /// What the dispatcher is to do for the connection as it stands.
    pub fn action(&self) -> (action: Action)
        ensures
            action == action_of(self.reading(), self.writing()),
    {
        if self.is_reading() && self.is_writing() {
            Action::read_write()
        } else if self.is_reading() {
            Action::read()
        } else if self.is_writing() {
            Action::write()
        } else if self.is_read_closed() && self.is_write_closed() {
            Action::remove()
        } else {
            Action::wait()
        }
    }
}

/// Removal needs both halves: the action of a connection is to remove it
/// if and only if its reading half and its writing half are both closed.
pub proof fn lemma_remove_iff_both_closed(reading: Reading, writing: Writing)
    ensures
        action_of(reading, writing) is Remove <==> reading is Closed && writing is Closed,
{
}

/// Reads follow demand: a connection asks to be registered for readable
/// events if and only if its reading half holds a sink that the consumer has
/// made ready, whatever its writing half does; and likewise for writable
/// events and a writing half that holds unsent bytes.
pub proof fn lemma_interest_follows_halves(reading: Reading, writing: Writing)
    ensures
        (action_of(reading, writing) matches Action::Register(interest) && (interest is Read
            || interest is ReadWrite)) <==> reading is Reading,
        (action_of(reading, writing) matches Action::Register(interest) && (interest is Write
            || interest is ReadWrite)) <==> writing is Writing,
{
}

/// Writes keep the order: the bytes that the socket takes in one write are
/// the first of the unsent bytes, and the bytes that stay unsent are all the
/// others, in order; none is lost and none is written twice.
pub proof fn lemma_write_keeps_order(
    before: Writing,
    n: usize,
    after: Writing,
    parked: Option<Source<Bytes>>,
    again: bool,
)
    requires
        before is Writing,
        n <= unsent_of(before).len(),
        write_done(before, Sent::Wrote(n), after, parked, again),
    ensures
        unsent_of(before) == unsent_of(before).take(n as int) + unsent_of(after),
{
    assert(unsent_of(before) =~= unsent_of(before).take(n as int) + unsent_of(after));
}

/// One write of a run: the half is writing, the socket takes `n` of its
/// unsent bytes, and the write leaves the half at `after`.
pub open spec fn write_step(before: Writing, n: usize, after: Writing) -> bool {
    &&& before is Writing
    &&& n <= unsent_of(before).len()
    &&& exists|parked: Option<Source<Bytes>>, again: bool| #[trigger]
        write_done(before, Sent::Wrote(n), after, parked, again)
}

/// Whether `halves` is a run of writes on one writing half: the write
/// numbered `i` finds the half at `halves[i]`, the socket takes `taken[i]`
/// bytes, and the write leaves the half at `halves[i + 1]`.
pub open spec fn is_write_run(halves: Seq<Writing>, taken: Seq<usize>) -> bool {
    &&& halves.len() == taken.len() + 1
    &&& forall|i: int|
        0 <= i < taken.len() ==> write_step(halves[i], #[trigger] taken[i], halves[i + 1])
}

/// The bytes that the socket takes in a run of writes, in order: in each
/// write the first `taken[i]` of the bytes that the half has unsent.
pub open spec fn wired(halves: Seq<Writing>, taken: Seq<usize>) -> Seq<u8>
    decreases taken.len(),
{
    if taken.len() == 0 || halves.len() == 0 {
        Seq::empty()
    } else {
        unsent_of(halves.first()).take(taken.first() as int) + wired(
            halves.drop_first(),
            taken.drop_first(),
        )
    }
}

/// A run of writes keeps the order: the bytes that the socket has taken, put
/// together, followed by the bytes still unsent, are the bytes that were
/// unsent at the start. A run that leaves the half waiting has handed all of
/// them to the socket, in order and each once, and the connection then asks
/// for no writable event, whatever its reading half does.
pub proof fn lemma_write_run_keeps_order(halves: Seq<Writing>, taken: Seq<usize>)
    requires
        is_write_run(halves, taken),
    ensures
        wired(halves, taken) + unsent_of(halves.last()) == unsent_of(halves.first()),
        halves.last() is Waiting ==> wired(halves, taken) == unsent_of(halves.first()),
        halves.last() is Waiting ==> forall|reading: Reading|
            #![trigger action_of(reading, halves.last())]
            action_of(reading, halves.last()) != Action::Register(Interest::Write) && action_of(
                reading,
                halves.last(),
            ) != Action::Register(Interest::ReadWrite),
    decreases taken.len(),
{
    if taken.len() == 0 {
        assert(halves.last() == halves.first());
        assert(Seq::<u8>::empty() + unsent_of(halves.last()) == unsent_of(halves.first()));
    } else {
        let before = halves[0];
        let after = halves[1];
        assert(write_step(before, taken[0], after));
        let (parked, again) = choose|parked: Option<Source<Bytes>>, again: bool| #[trigger]
            write_done(before, Sent::Wrote(taken[0]), after, parked, again);
        lemma_write_keeps_order(before, taken[0], after, parked, again);
        let rest = halves.drop_first();
        let left = taken.drop_first();
        assert forall|i: int| 0 <= i < left.len() implies write_step(
            rest[i],
            #[trigger] left[i],
            rest[i + 1],
        ) by {
            assert(left[i] == taken[i + 1]);
            assert(write_step(halves[i + 1], taken[i + 1], halves[i + 2]));
        }
        lemma_write_run_keeps_order(rest, left);
        assert(rest.first() == after);
        assert(rest.last() == halves.last());
        assert(wired(halves, taken) + unsent_of(halves.last()) == unsent_of(before).take(
            taken[0] as int,
        ) + (wired(rest, left) + unsent_of(halves.last())));
    }
    if halves.last() is Waiting {
        assert(wired(halves, taken) + Seq::<u8>::empty() == wired(halves, taken));
    }
}

/// Back-pressure: when a read has left the consumer's sink parked, the
/// reading half waits, and the connection does not ask for readable events,
/// whatever its writing half does.
pub proof fn lemma_parked_sink_stops_reads(
    before: Reading,
    got: Received,
    after: Reading,
    parked: Option<Parked<Bytes>>,
    writing: Writing,
)
    requires
        read_done(before, got, after, parked),
        parked is Some,
    ensures
        after is Waiting,
        action_of(after, writing) != Action::Register(Interest::Read),
        action_of(after, writing) != Action::Register(Interest::ReadWrite),
{
}

} // verus!
