use bytes::Bytes;
use eventual::Async;
use eventual_io::endpoint::{Parked, Source};
use eventual_io::net::connection::{Connection, Received, Sent};
use eventual_io::net::listener::{Accepted, Listener};
use eventual_io::net::{Action, Interest};
use eventual_io::reactor::{Dispatch, Io, IoHandler, Message, Outcome, Token, CAPACITY};

fn bytes(b: &'static [u8]) -> Bytes {
    Bytes::from_static(b)
}

fn done(dispatch: Dispatch) -> Outcome {
    match dispatch {
        Dispatch::Done(outcome) => outcome,
        Dispatch::Stale => panic!("the event was stale"),
        Dispatch::Full => panic!("the slab was full"),
        Dispatch::Accepted(..) => panic!("a connection was accepted"),
    }
}

/// A consumer that asks for every value and drops it.
fn swallow(rx: Source<Bytes>) {
    rx.receive(move |res| {
        if let Ok(Some((_, rest))) = res {
            swallow(rest);
        }
    });
}

/// A consumer of connections that keeps each one and asks for the next.
fn keep_all(
    rx: Source<eventual_io::endpoint::Pair<Bytes>>,
    store: std::sync::Arc<std::sync::Mutex<Vec<eventual_io::endpoint::Pair<Bytes>>>>,
) {
    rx.receive(move |res| {
        if let Ok(Some((pair, rest))) = res {
            store.lock().unwrap().push(pair);
            keep_all(rest, store);
        }
    });
}

#[test]
fn capacity_is_fixed() {
    assert_eq!(CAPACITY, 65_535);
}

#[test]
fn new_handler_knows_no_token() {
    let handler = IoHandler::new();
    assert_eq!(handler.readable(Token(0)), None);
    assert_eq!(handler.readable(Token(CAPACITY)), None);
    assert_eq!(handler.readable(Token(usize::MAX)), None);
    assert!(handler.writable(Token(0)).is_none());
    assert!(handler.writable(Token(usize::MAX)).is_none());
}

#[test]
fn events_for_unknown_tokens_are_stale() {
    let mut handler = IoHandler::new();
    assert!(matches!(handler.read(Token(3), Received::WouldBlock), Dispatch::Stale));
    assert!(matches!(handler.write(Token(3), Sent::WouldBlock), Dispatch::Stale));
    assert!(matches!(handler.accept(Token(3), Accepted::Socket), Dispatch::Stale));
    assert!(matches!(handler.read_interest(None, Token(3)), Dispatch::Stale));
    assert!(matches!(handler.write_interest(None, Token(3)), Dispatch::Stale));
    assert!(matches!(handler.accept_interest(None, Token(3)), Dispatch::Stale));
    assert!(matches!(handler.read(Token(usize::MAX), Received::Failed), Dispatch::Stale));
}

#[test]
fn stream_installs_a_waiting_connection() {
    let mut handler = IoHandler::new();
    let (conn, _pair) = Connection::of();
    let outcome = done(handler.stream(conn));
    assert_eq!(outcome.action, Action::Wait);
    assert!(matches!(outcome.read, Some(Parked::Idle(_))));
    assert!(outcome.write.is_some());
    assert!(outcome.accept.is_none());
    assert!(!outcome.again);
    assert_eq!(handler.readable(outcome.token), None);
    assert!(handler.writable(outcome.token).is_none());
}

#[test]
fn stream_registers_a_connection_with_demand_and_supply() {
    let mut handler = IoHandler::new();
    let (conn, (tx, rx)) = Connection::of();
    swallow(rx);
    let _busy = tx.send(bytes(b"abc"));
    let outcome = done(handler.stream(conn));
    assert_eq!(outcome.action, Action::Register(Interest::ReadWrite));
    assert!(outcome.read.is_none());
    assert!(outcome.write.is_none());
    assert_eq!(handler.readable(outcome.token), Some(Io::Read));
    assert_eq!(handler.writable(outcome.token), Some(bytes(b"abc")));
}

#[test]
fn stream_drops_a_connection_without_ends() {
    let mut handler = IoHandler::new();
    let (conn, pair) = Connection::of();
    drop(pair);
    let outcome = done(handler.stream(conn));
    assert_eq!(outcome.action, Action::Remove);
    assert_eq!(handler.readable(outcome.token), None);
    assert!(matches!(handler.read_interest(None, outcome.token), Dispatch::Stale));
}

#[test]
fn stream_refuses_a_started_connection() {
    let mut handler = IoHandler::new();
    let (mut conn, _pair) = Connection::of();
    conn.init();
    assert!(matches!(handler.stream(conn), Dispatch::Stale));
    assert_eq!(handler.readable(Token(0)), None);
}

#[test]
fn tokens_of_live_entries_differ() {
    let mut handler = IoHandler::new();
    let mut pairs = Vec::new();
    let mut tokens = Vec::new();
    for _ in 0..50 {
        let (conn, pair) = Connection::of();
        pairs.push(pair);
        let outcome = done(handler.stream(conn));
        assert!(outcome.token.0 < CAPACITY);
        assert!(!tokens.contains(&outcome.token));
        tokens.push(outcome.token);
    }
}

#[test]
fn a_token_comes_back_only_after_its_entry_is_out() {
    let mut handler = IoHandler::new();
    let (first, _p1) = Connection::of();
    let (second, _p2) = Connection::of();
    let a = done(handler.stream(first)).token;
    let b = done(handler.stream(second)).token;
    assert_ne!(a, b);
    // Both halves of `a` close: its entry leaves the slab.
    assert_eq!(done(handler.read_interest(None, a)).action, Action::Wait);
    assert_eq!(done(handler.write_interest(None, a)).action, Action::Remove);
    assert!(matches!(handler.read_interest(None, a), Dispatch::Stale));
    let (third, _p3) = Connection::of();
    let c = done(handler.stream(third)).token;
    assert_ne!(c, b);
    // `b` is untouched by all of this.
    assert_eq!(done(handler.read_interest(None, b)).action, Action::Wait);
}

#[test]
fn a_full_slab_drops_the_new_entry() {
    let mut handler = IoHandler::new();
    let mut sources = Vec::new();
    for _ in 0..CAPACITY {
        let (listener, rx) = Listener::of();
        sources.push(rx);
        let outcome = done(handler.listen(listener));
        assert_eq!(outcome.action, Action::Wait);
    }
    let (listener, _rx) = Listener::of();
    assert!(matches!(handler.listen(listener), Dispatch::Full));
    let (conn, _pair) = Connection::of();
    assert!(matches!(handler.stream(conn), Dispatch::Full));
    let (conn, _pair) = Connection::of();
    assert!(matches!(handler.notify(Message::Stream(conn)), Dispatch::Full));
    // One entry out makes room for one.
    assert_eq!(done(handler.accept_interest(None, Token(17))).action, Action::Remove);
    let (conn, _pair) = Connection::of();
    assert_eq!(done(handler.stream(conn)).token, Token(17));
    let (conn, _pair) = Connection::of();
    assert!(matches!(handler.stream(conn), Dispatch::Full));
}

#[test]
fn read_goes_to_the_connection() {
    let mut handler = IoHandler::new();
    let (conn, (_tx, rx)) = Connection::of();
    swallow(rx);
    let token = done(handler.stream(conn)).token;
    assert_eq!(handler.readable(token), Some(Io::Read));
    let outcome = done(handler.read(token, Received::Data(bytes(b"abc"))));
    assert_eq!(outcome.token, token);
    assert_eq!(outcome.action, Action::Register(Interest::Read));
    assert!(outcome.read.is_none());
    // The peer ends: the reading half closes, the entry stays for writes.
    let outcome = done(handler.read(token, Received::Data(bytes(b""))));
    assert_eq!(outcome.action, Action::Wait);
    assert_eq!(handler.readable(token), None);
    assert!(matches!(handler.read(token, Received::WouldBlock), Dispatch::Stale));
    assert_eq!(done(handler.write_interest(None, token)).action, Action::Remove);
}

#[test]
fn read_is_stale_without_demand() {
    let mut handler = IoHandler::new();
    let (conn, _pair) = Connection::of();
    let token = done(handler.stream(conn)).token;
    assert_eq!(handler.readable(token), None);
    assert!(matches!(handler.read(token, Received::Data(bytes(b"abc"))), Dispatch::Stale));
}

#[test]
fn read_parks_the_sink_of_a_slow_consumer() {
    let mut handler = IoHandler::new();
    let (conn, (_tx, rx)) = Connection::of();
    let held = std::sync::Arc::new(std::sync::Mutex::new(None));
    let slot = held.clone();
    rx.receive(move |res| {
        if let Ok(Some((_, rest))) = res {
            *slot.lock().unwrap() = Some(rest);
        }
    });
    let token = done(handler.stream(conn)).token;
    let outcome = done(handler.read(token, Received::Data(bytes(b"abc"))));
    assert_eq!(outcome.action, Action::Wait);
    assert!(matches!(outcome.read, Some(Parked::Busy(_))));
    // No read is asked for until the consumer asks.
    assert_eq!(handler.readable(token), None);
    assert!(matches!(handler.read(token, Received::Data(bytes(b"de"))), Dispatch::Stale));
    let rest: Source<Bytes> = held.lock().unwrap().take().unwrap();
    swallow(rest);
    let tx = match outcome.read.unwrap() {
        Parked::Busy(busy) => busy.poll().ok().unwrap().ok().unwrap(),
        Parked::Idle(_) => panic!("a value was sent"),
    };
    let outcome = done(handler.read_interest(Some(tx), token));
    assert_eq!(outcome.action, Action::Register(Interest::Read));
    assert_eq!(handler.readable(token), Some(Io::Read));
}

#[test]
fn read_interest_needs_a_waiting_half() {
    let mut handler = IoHandler::new();
    let (conn, (_tx, rx)) = Connection::of();
    swallow(rx);
    let token = done(handler.stream(conn)).token;
    // The half is reading already: a second sink is stale.
    let (tx, _rx) = eventual::Stream::<Bytes, ()>::pair();
    assert!(matches!(handler.read_interest(Some(tx), token), Dispatch::Stale));
    assert_eq!(handler.readable(token), Some(Io::Read));
}

#[test]
fn write_goes_to_the_connection() {
    let mut handler = IoHandler::new();
    let (conn, (tx, _rx)) = Connection::of();
    let _busy = tx.send(bytes(b"abcdef"));
    let token = done(handler.stream(conn)).token;
    assert_eq!(handler.writable(token), Some(bytes(b"abcdef")));
    let outcome = done(handler.write(token, Sent::Wrote(4)));
    assert!(outcome.again);
    assert_eq!(outcome.action, Action::Register(Interest::Write));
    assert_eq!(handler.writable(token), Some(bytes(b"ef")));
    let outcome = done(handler.write(token, Sent::WouldBlock));
    assert!(!outcome.again);
    assert_eq!(handler.writable(token), Some(bytes(b"ef")));
    let outcome = done(handler.write(token, Sent::Wrote(2)));
    assert!(!outcome.again);
    assert_eq!(outcome.action, Action::Wait);
    assert!(outcome.write.is_some());
    assert!(handler.writable(token).is_none());
    assert!(matches!(handler.write(token, Sent::Wrote(0)), Dispatch::Stale));
}

#[test]
fn write_of_more_than_is_held_is_stale() {
    let mut handler = IoHandler::new();
    let (conn, (tx, _rx)) = Connection::of();
    let _busy = tx.send(bytes(b"abc"));
    let token = done(handler.stream(conn)).token;
    assert!(matches!(handler.write(token, Sent::Wrote(4)), Dispatch::Stale));
    assert_eq!(handler.writable(token), Some(bytes(b"abc")));
}

#[test]
fn write_error_closes_the_half_and_keeps_the_entry() {
    let mut handler = IoHandler::new();
    let (conn, (tx, rx)) = Connection::of();
    swallow(rx);
    let _busy = tx.send(bytes(b"abc"));
    let token = done(handler.stream(conn)).token;
    let outcome = done(handler.write(token, Sent::Failed));
    assert_eq!(outcome.action, Action::Register(Interest::Read));
    assert!(handler.writable(token).is_none());
    assert_eq!(handler.readable(token), Some(Io::Read));
}

#[test]
fn write_interest_starts_the_next_chunk() {
    let mut handler = IoHandler::new();
    let (conn, _pair) = Connection::of();
    let token = done(handler.stream(conn)).token;
    let (_tx, rest) = eventual::Stream::<Bytes, ()>::pair();
    let outcome = done(handler.write_interest(Some((bytes(b"xy"), rest)), token));
    assert_eq!(outcome.action, Action::Register(Interest::Write));
    assert_eq!(handler.writable(token), Some(bytes(b"xy")));
    // The half is writing: a further chunk is stale.
    let (_tx, rest) = eventual::Stream::<Bytes, ()>::pair();
    assert!(matches!(handler.write_interest(Some((bytes(b"z"), rest)), token), Dispatch::Stale));
    assert_eq!(handler.writable(token), Some(bytes(b"xy")));
}

#[test]
fn listen_installs_a_listener() {
    let mut handler = IoHandler::new();
    let (listener, rx) = Listener::of();
    rx.receive(|_| ());
    let outcome = done(handler.listen(listener));
    assert_eq!(outcome.action, Action::Register(Interest::Read));
    assert!(outcome.accept.is_none());
    assert_eq!(handler.readable(outcome.token), Some(Io::Accept));
    assert!(handler.writable(outcome.token).is_none());
}

#[test]
fn listen_drops_a_listener_without_consumer() {
    let mut handler = IoHandler::new();
    let (listener, rx) = Listener::of();
    drop(rx);
    let outcome = done(handler.listen(listener));
    assert_eq!(outcome.action, Action::Remove);
    assert_eq!(handler.readable(outcome.token), None);
    assert!(matches!(handler.accept_interest(None, outcome.token), Dispatch::Stale));
}

#[test]
fn accept_interest_wakes_and_ends_a_listener() {
    let mut handler = IoHandler::new();
    let (listener, _rx) = Listener::of();
    let outcome = done(handler.listen(listener));
    assert_eq!(outcome.action, Action::Wait);
    let token = outcome.token;
    assert_eq!(handler.readable(token), None);
    let tx = match outcome.accept {
        Some(Parked::Idle(tx)) => tx,
        _ => panic!("the sink was not parked"),
    };
    let outcome = done(handler.accept_interest(Some(tx), token));
    assert_eq!(outcome.action, Action::Register(Interest::Read));
    assert_eq!(handler.readable(token), Some(Io::Accept));
    let outcome = done(handler.accept_interest(None, token));
    assert_eq!(outcome.action, Action::Remove);
    assert_eq!(handler.readable(token), None);
}

#[test]
fn events_of_the_wrong_kind_are_stale() {
    let mut handler = IoHandler::new();
    let (listener, rx) = Listener::of();
    rx.receive(|_| ());
    let l = done(handler.listen(listener)).token;
    let (conn, (_tx, rx)) = Connection::of();
    swallow(rx);
    let c = done(handler.stream(conn)).token;
    assert!(matches!(handler.read(l, Received::WouldBlock), Dispatch::Stale));
    assert!(matches!(handler.write(l, Sent::WouldBlock), Dispatch::Stale));
    assert!(matches!(handler.read_interest(None, l), Dispatch::Stale));
    assert!(matches!(handler.write_interest(None, l), Dispatch::Stale));
    assert!(matches!(handler.accept(c, Accepted::Socket), Dispatch::Stale));
    assert!(matches!(handler.accept_interest(None, c), Dispatch::Stale));
    assert_eq!(handler.readable(l), Some(Io::Accept));
    assert_eq!(handler.readable(c), Some(Io::Read));
}

#[test]
fn accept_installs_the_connection() {
    let mut handler = IoHandler::new();
    let (listener, rx) = Listener::of();
    // The consumer takes each connection, keeps it, and asks for the next.
    let kept = std::sync::Arc::new(std::sync::Mutex::new(Vec::new()));
    let store = kept.clone();
    keep_all(rx, store);
    let l = done(handler.listen(listener)).token;
    let (listener_outcome, conn_outcome) = match handler.accept(l, Accepted::Socket) {
        Dispatch::Accepted(listener, conn) => (listener, conn.unwrap()),
        _ => panic!("a connection was accepted"),
    };
    assert_eq!(kept.lock().unwrap().len(), 1);
    assert_eq!(listener_outcome.token, l);
    assert_eq!(listener_outcome.action, Action::Register(Interest::Read));
    assert_ne!(conn_outcome.token, l);
    assert_eq!(conn_outcome.action, Action::Wait);
    assert!(conn_outcome.read.is_some());
    assert!(conn_outcome.write.is_some());
    assert_eq!(handler.readable(l), Some(Io::Accept));
    assert_eq!(handler.readable(conn_outcome.token), None);
    // A second connection gets a token of its own.
    let second = match handler.accept(l, Accepted::Socket) {
        Dispatch::Accepted(_, conn) => conn.unwrap(),
        _ => panic!("a connection was accepted"),
    };
    assert_ne!(second.token, conn_outcome.token);
    assert_ne!(second.token, l);
}

#[test]
fn accept_without_a_connection_registers_again() {
    let mut handler = IoHandler::new();
    let (listener, rx) = Listener::of();
    rx.receive(|_| ());
    let l = done(handler.listen(listener)).token;
    let outcome = done(handler.accept(l, Accepted::WouldBlock));
    assert_eq!(outcome.action, Action::Register(Interest::Read));
    assert_eq!(handler.readable(l), Some(Io::Accept));
}

#[test]
fn accept_error_removes_the_listener() {
    let mut handler = IoHandler::new();
    let (listener, rx) = Listener::of();
    rx.receive(|_| ());
    let l = done(handler.listen(listener)).token;
    let outcome = done(handler.accept(l, Accepted::Failed));
    assert_eq!(outcome.action, Action::Remove);
    assert_eq!(handler.readable(l), None);
    assert!(matches!(handler.accept(l, Accepted::Socket), Dispatch::Stale));
}

#[test]
fn accept_removes_a_listener_whose_consumer_left() {
    let mut handler = IoHandler::new();
    let (listener, rx) = Listener::of();
    // The consumer takes one connection and leaves.
    rx.receive(|_| ());
    let l = done(handler.listen(listener)).token;
    let (listener_outcome, conn_outcome) = match handler.accept(l, Accepted::Socket) {
        Dispatch::Accepted(listener, conn) => (listener, conn.unwrap()),
        _ => panic!("a connection was accepted"),
    };
    assert_eq!(listener_outcome.action, Action::Remove);
    assert_eq!(handler.readable(l), None);
    // Both ends of the connection went with the consumer.
    assert_eq!(conn_outcome.action, Action::Remove);
}

#[test]
fn accept_is_stale_while_the_consumer_has_not_asked() {
    let mut handler = IoHandler::new();
    let (listener, _rx) = Listener::of();
    let l = done(handler.listen(listener)).token;
    assert!(matches!(handler.accept(l, Accepted::Socket), Dispatch::Stale));
}

#[test]
fn notify_takes_each_message() {
    let mut handler = IoHandler::new();
    let (listener, _accepts) = Listener::of();
    let outcome = done(handler.notify(Message::Accept(listener)));
    let l = outcome.token;
    let tx = match outcome.accept {
        Some(Parked::Idle(tx)) => tx,
        _ => panic!("the sink was not parked"),
    };
    let outcome = done(handler.notify(Message::AcceptInterest(Some(tx), l)));
    assert_eq!(outcome.action, Action::Register(Interest::Read));

    let (conn, _pair) = Connection::of();
    let outcome = done(handler.notify(Message::Stream(conn)));
    let c = outcome.token;
    assert_ne!(c, l);
    let tx = match outcome.read {
        Some(Parked::Idle(tx)) => tx,
        _ => panic!("the sink was not parked"),
    };
    let outcome = done(handler.notify(Message::ReadInterest(Some(tx), c)));
    assert_eq!(outcome.action, Action::Register(Interest::Read));
    let (_tx, rest) = eventual::Stream::<Bytes, ()>::pair();
    let outcome = done(handler.notify(Message::WriteInterest(Some((bytes(b"ab"), rest)), c)));
    assert_eq!(outcome.action, Action::Register(Interest::ReadWrite));
    let outcome = done(handler.notify(Message::ReadInterest(None, c)));
    assert_eq!(outcome.action, Action::Register(Interest::Write));
    let outcome = done(handler.notify(Message::WriteInterest(None, c)));
    assert_eq!(outcome.action, Action::Remove);
    let outcome = done(handler.notify(Message::AcceptInterest(None, l)));
    assert_eq!(outcome.action, Action::Remove);
    assert!(matches!(handler.notify(Message::ReadInterest(None, c)), Dispatch::Stale));
}

#[test]
fn consumer_drop_stops_reads_and_the_entry_leaves_with_the_writes() {
    let mut handler = IoHandler::new();
    let (conn, (tx, rx)) = Connection::of();
    // The read source is dropped at once.
    drop(rx);
    let outcome = done(handler.stream(conn));
    let token = outcome.token;
    assert_eq!(outcome.action, Action::Wait);
    assert!(outcome.read.is_none());
    // No read is asked for, and one that comes is not taken.
    assert_eq!(handler.readable(token), None);
    assert!(matches!(handler.read(token, Received::Data(bytes(b"abc"))), Dispatch::Stale));
    // The entry stays while the writing half is open.
    assert!(handler.writable(token).is_none());
    drop(tx);
    let ended = std::sync::Arc::new(std::sync::Mutex::new(false));
    let flag = ended.clone();
    outcome.write.unwrap().receive(move |res| {
        if let Ok(None) = res {
            *flag.lock().unwrap() = true;
        }
    });
    assert!(*ended.lock().unwrap());
    let outcome = done(handler.write_interest(None, token));
    assert_eq!(outcome.action, Action::Remove);
    assert!(matches!(handler.write_interest(None, token), Dispatch::Stale));
}

#[test]
fn producer_end_closes_writes_after_the_chunk() {
    let mut handler = IoHandler::new();
    let (conn, (tx, rx)) = Connection::of();
    swallow(rx);
    // One chunk, then the end of the sequence.
    drop(tx.send(bytes(b"one chunk")));
    let token = done(handler.stream(conn)).token;
    // The chunk is written fully.
    let mut wire = Vec::new();
    let mut parked = None;
    while let Some(buf) = handler.writable(token) {
        let n = std::cmp::min(4, buf.len());
        wire.extend_from_slice(&buf[..n]);
        let outcome = done(handler.write(token, Sent::Wrote(n)));
        if !outcome.again {
            parked = outcome.write;
        }
    }
    assert_eq!(wire, b"one chunk".to_vec());
    // Then the source reports the end, and the writing half closes.
    let ended = std::sync::Arc::new(std::sync::Mutex::new(false));
    let flag = ended.clone();
    parked.unwrap().receive(move |res| {
        if let Ok(None) = res {
            *flag.lock().unwrap() = true;
        }
    });
    assert!(*ended.lock().unwrap());
    let outcome = done(handler.write_interest(None, token));
    assert_eq!(outcome.action, Action::Register(Interest::Read));
    assert!(handler.writable(token).is_none());
    assert_eq!(handler.readable(token), Some(Io::Read));
}

#[test]
fn stale_removals_leave_the_slab_whole() {
    let mut handler = IoHandler::new();
    // Events that would remove an entry, for tokens that have none.
    assert!(matches!(handler.accept_interest(None, Token(0)), Dispatch::Stale));
    assert!(matches!(handler.write_interest(None, Token(0)), Dispatch::Stale));
    assert!(matches!(handler.read_interest(None, Token(1)), Dispatch::Stale));
    assert!(matches!(handler.accept(Token(2), Accepted::Failed), Dispatch::Stale));
    // The slab still takes as many entries as it was made for, each under a
    // token of its own, and no more.
    let mut sources = Vec::new();
    let mut seen = vec![false; CAPACITY];
    for _ in 0..CAPACITY {
        let (listener, rx) = Listener::of();
        sources.push(rx);
        let token = done(handler.listen(listener)).token;
        assert!(!seen[token.0]);
        seen[token.0] = true;
    }
    let (listener, _rx) = Listener::of();
    assert!(matches!(handler.listen(listener), Dispatch::Full));
}

#[test]
fn tokens_are_reused_without_clashes() {
    let mut handler = IoHandler::new();
    let mut live = Vec::new();
    let mut sources = Vec::new();
    for round in 0..200 {
        let (listener, rx) = Listener::of();
        sources.push(rx);
        let token = done(handler.listen(listener)).token;
        assert!(!live.contains(&token));
        live.push(token);
        if round % 3 == 2 {
            let gone = live.remove(round % live.len());
            assert_eq!(done(handler.accept_interest(None, gone)).action, Action::Remove);
            // A second removal finds nothing.
            assert!(matches!(handler.accept_interest(None, gone), Dispatch::Stale));
        }
    }
}

#[test]
fn woken_messages_carry_what_the_endpoint_gave() {
    let (tx, _rx) = eventual::Stream::<Bytes, ()>::pair();
    assert!(matches!(Message::read_woken(Ok(tx), Token(4)), Message::ReadInterest(Some(_), Token(4))));
    assert!(matches!(Message::read_woken(Err(()), Token(4)), Message::ReadInterest(None, Token(4))));
    let (tx, _rx) = eventual::Stream::<eventual_io::endpoint::Pair<Bytes>, ()>::pair();
    assert!(matches!(
        Message::accept_woken(Ok(tx), Token(5)),
        Message::AcceptInterest(Some(_), Token(5))
    ));
    assert!(matches!(Message::accept_woken(Err(()), Token(5)), Message::AcceptInterest(None, Token(5))));
    let (_tx, rest) = eventual::Stream::<Bytes, ()>::pair();
    match Message::write_woken(Ok(Some((bytes(b"ab"), rest))), Token(6)) {
        Message::WriteInterest(Some((chunk, _)), Token(6)) => assert_eq!(chunk, bytes(b"ab")),
        _ => panic!("the chunk goes with the message"),
    }
    assert!(matches!(Message::write_woken(Ok(None), Token(6)), Message::WriteInterest(None, Token(6))));
    // A failed sequence ends the writes as its end does.
    assert!(matches!(Message::write_woken(Err(()), Token(6)), Message::WriteInterest(None, Token(6))));
}

#[test]
fn a_failed_source_closes_the_writing_half() {
    let mut handler = IoHandler::new();
    let (conn, (tx, rx)) = Connection::of();
    swallow(rx);
    let outcome = done(handler.stream(conn));
    let token = outcome.token;
    tx.fail(());
    let posted = std::sync::Arc::new(std::sync::Mutex::new(None));
    let slot = posted.clone();
    outcome.write.unwrap().receive(move |res| {
        *slot.lock().unwrap() = Some(Message::write_woken(res.map_err(|_| ()), token));
    });
    let msg = posted.lock().unwrap().take().unwrap();
    let outcome = done(handler.notify(msg));
    assert_eq!(outcome.action, Action::Register(Interest::Read));
    assert!(handler.writable(token).is_none());
    assert_eq!(handler.readable(token), Some(Io::Read));
}
