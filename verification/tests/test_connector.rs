use actix_web::client::connector::{
    Acquire, AcquiredConn, ClientConnector, ClientConnectorError, Connect, ConnectAction,
    Connection, ConnectorError, Dialed, Key, Probe, Protocol, ReadOutcome, WaiterAction,
};

fn idle(_: &u32) -> Probe {
    Probe::Idle
}

fn never(_: u64) -> bool {
    false
}

#[test]
fn test_pool_limit_blocks_second_request() {
    let mut conn: ClientConnector<u32, ()> = ClientConnector::default().limit(1).limit_per_host(0);
    let first = Connect::new("http://h:80/").unwrap();
    let second = Connect::new("http://h:80/").unwrap().wait_time(2000);

    let slot = match conn.handle(first, 10, &idle) {
        ConnectAction::Dial { slot, secure, conn_timeout } => {
            assert!(!secure);
            assert_eq!(conn_timeout, 1000);
            slot
        }
        other => panic!("unexpected {:?}", other),
    };
    assert_eq!(slot.0.host, "h");
    assert_eq!(slot.0.port, 80);
    assert!(!slot.0.ssl);
    assert_eq!(conn.acquired, 1);

    let waiter = match conn.handle(second, 20, &idle) {
        ConnectAction::Wait(w) => w,
        other => panic!("unexpected {:?}", other),
    };
    assert_eq!(waiter.wait, 2020);
    assert_eq!(conn.wait_timeout, Some(2020));
    assert_eq!(conn.acquired, 1);

    // the first lease comes back
    let lease = Connection::new(slot.0.clone(), Some(slot), 7u32, 10);
    lease.release(&mut conn.pool);
    assert!(conn.pool.modified);

    let actions = conn.maintain(30, &idle, &never);
    assert_eq!(actions.len(), 1);
    match &actions[0] {
        WaiterAction::Reuse(w, c) => {
            assert_eq!(w.id, waiter.id);
            assert_eq!(c.stream, 7);
            assert_eq!(c.key.host, "h");
            assert_eq!(c.key.port, 80);
            assert!(c.pool.as_ref().unwrap().1);
        }
        other => panic!("unexpected {:?}", other),
    }
    assert_eq!(conn.acquired, 1);
    assert_eq!(conn.wait_timeout, None);
}

#[test]
fn test_protocol() {
    assert_eq!(Protocol::from("http"), Some(Protocol::Http));
    assert_eq!(Protocol::from("https"), Some(Protocol::Https));
    assert_eq!(Protocol::from("ws"), Some(Protocol::Ws));
    assert_eq!(Protocol::from("wss"), Some(Protocol::Wss));
    assert_eq!(Protocol::from("ftp"), None);
    assert!(Protocol::Http.is_http() && Protocol::Https.is_http());
    assert!(!Protocol::Ws.is_http() && !Protocol::Wss.is_http());
    assert!(Protocol::Https.is_secure() && Protocol::Wss.is_secure());
    assert_eq!(Protocol::Http.port(), 80);
    assert_eq!(Protocol::Ws.port(), 80);
    assert_eq!(Protocol::Https.port(), 443);
    assert_eq!(Protocol::Wss.port(), 443);
}

#[test]
fn test_acquire_available_then_not_available() {
    let mut conn: ClientConnector<u32, ()> = ClientConnector::default().limit(0).limit_per_host(1);
    let key = Key { host: "a".to_owned(), port: 1, ssl: false };
    assert!(matches!(conn.acquire(&key, 0, &idle), Acquire::Available));
    assert!(matches!(conn.acquire(&key, 0, &idle), Acquire::NotAvailable));
    let other = Key { host: "b".to_owned(), port: 1, ssl: false };
    assert!(matches!(conn.acquire(&other, 0, &idle), Acquire::Available));
    assert_eq!(conn.acquired, 2);
}

fn key(host: &str) -> Key {
    Key { host: host.to_owned(), port: 80, ssl: false }
}

fn per_host_sum(conn: &ClientConnector<u32, ()>) -> usize {
    conn.acquired_per_host.iter().map(|entry| entry.1).sum()
}

#[test]
fn test_connect_message() {
    let msg = Connect::new("http://example.org:8080/x?y=1").unwrap();
    assert_eq!(msg.uri.scheme.as_deref(), Some("http"));
    assert_eq!(msg.uri.host.as_deref(), Some("example.org"));
    assert_eq!(msg.uri.port, Some(8080));
    assert_eq!(msg.wait_time, 5000);
    assert_eq!(msg.conn_timeout, 1000);
    let msg = msg.conn_timeout(10).wait_time(20);
    assert_eq!((msg.conn_timeout, msg.wait_time), (10, 20));
    let msg = Connect::new("/only/a/path").unwrap();
    assert_eq!(msg.uri.host, None);
    assert_eq!(msg.uri.scheme, None);
    assert!(Connect::new("http://bad host/").is_err());
    assert!(Connect::new("").is_err());
}

#[test]
fn test_handle_rejections() {
    let mut conn: ClientConnector<u32, ()> = ClientConnector::default();
    let msg = Connect::new("/only/a/path").unwrap();
    assert!(matches!(
        conn.handle(msg, 0, &idle),
        ConnectAction::Fail(ClientConnectorError::InvalidUrl)
    ));
    let msg = Connect::new("ftp://example.org/").unwrap();
    assert!(matches!(
        conn.handle(msg, 0, &idle),
        ConnectAction::Fail(ClientConnectorError::InvalidUrl)
    ));
    let msg = Connect::new("https://example.org/").unwrap();
    assert!(matches!(
        conn.handle(msg, 0, &idle),
        ConnectAction::Fail(ClientConnectorError::SslIsNotSupported)
    ));
    assert_eq!(conn.acquired, 0);

    // a protocol that is not pooled is dialled without a slot
    let msg = Connect::new("ws://example.org/chat").unwrap().conn_timeout(7);
    match conn.handle(msg, 0, &idle) {
        ConnectAction::Dial { slot, secure, conn_timeout } => {
            assert_eq!(slot.0.host, "example.org");
            assert_eq!(slot.0.port, 80);
            assert!(!slot.1);
            assert!(!secure);
            assert_eq!(conn_timeout, 7);
        }
        other => panic!("unexpected {:?}", other),
    }
    assert_eq!(conn.acquired, 0);

    let mut tls: ClientConnector<u32, &str> = ClientConnector::with_connector("tls");
    let msg = Connect::new("https://example.org/").unwrap();
    match tls.handle(msg, 0, &idle) {
        ConnectAction::Dial { slot, secure, .. } => {
            assert_eq!(slot.0.port, 443);
            assert!(slot.0.ssl && slot.1 && secure);
        }
        other => panic!("unexpected {:?}", other),
    }
    assert_eq!(tls.acquired, 1);
    assert_eq!(tls.limit, 100);
    assert_eq!(tls.limit_per_host, 0);
    assert_eq!(tls.conn_keep_alive, 75_000);
    assert_eq!(tls.conn_lifetime, 15_000);
}

/// A connector with two idle connections of `a`, released at 1000 and 2000.
fn with_idle() -> ClientConnector<u32, ()> {
    let mut conn: ClientConnector<u32, ()> =
        ClientConnector::default().conn_keep_alive(5_000).conn_lifetime(20_000);
    let mut leases = Vec::new();
    for (stream, created) in [(1u32, 0u64), (2, 500)] {
        assert!(matches!(conn.acquire(&key("a"), created, &idle), Acquire::Available));
        let slot = AcquiredConn(key("a"), true);
        leases.push(Connection::new(key("a"), Some(slot), stream, created));
    }
    for (lease, released) in leases.into_iter().zip([1000u64, 2000]) {
        lease.release(&mut conn.pool);
        conn.drain(released);
    }
    assert_eq!(conn.acquired, 0);
    assert_eq!(conn.available[0].1.len(), 2);
    conn
}

#[test]
fn test_acquire_newest_idle_first() {
    let mut conn = with_idle();
    match conn.acquire(&key("a"), 3000, &idle) {
        Acquire::Acquired(c) => assert_eq!(c.stream, 2),
        other => panic!("unexpected {:?}", other),
    }
    match conn.acquire(&key("a"), 3000, &idle) {
        Acquire::Acquired(c) => assert_eq!(c.stream, 1),
        other => panic!("unexpected {:?}", other),
    }
    assert!(matches!(conn.acquire(&key("a"), 3000, &idle), Acquire::Available));
    assert_eq!(conn.acquired, 3);
    assert_eq!(per_host_sum(&conn), 3);
}

#[test]
fn test_acquire_skips_stale_and_dead() {
    // the newest has outlived keep-alive at 7001, the older one too
    let mut conn = with_idle();
    assert!(matches!(conn.acquire(&key("a"), 7001, &idle), Acquire::Available));
    assert_eq!(conn.to_close.len(), 2);
    assert_eq!(conn.to_close[0].stream, 2);
    assert_eq!(conn.to_close[1].stream, 1);

    // bytes are pending on the newest: it is closed; the older one is closed already
    let mut conn = with_idle();
    let probe = |stream: &u32| if *stream == 2 { Probe::Data } else { Probe::Closed };
    assert!(matches!(conn.acquire(&key("a"), 3000, &probe), Acquire::Available));
    assert_eq!(conn.to_close.len(), 1);
    assert_eq!(conn.to_close[0].stream, 2);
    assert!(conn.available[0].1.is_empty());

    // the steps of admission one by one
    let mut conn = with_idle();
    let taken = conn.take_idle(&key("a"), 6500).unwrap();
    assert_eq!(taken.stream, 2);
    assert!(conn.settle(taken, Probe::Data).is_none());
    assert_eq!(conn.to_close.len(), 1);
    assert!(conn.take_idle(&key("a"), 6500).is_none());
    assert_eq!(conn.to_close.len(), 2);
}

#[test]
fn test_idle_discipline() {
    let mut conn = with_idle();
    // at 6500 the first has been idle for 5500 > 5000, the second for 4500
    conn.collect(false, 6500, &|_: &u32| true);
    assert_eq!(conn.available[0].1.len(), 1);
    assert_eq!(conn.available[0].1[0].1.stream, 2);
    assert_eq!(conn.to_close.len(), 1);
    // a periodic pass shuts down what is to be closed
    conn.collect(true, 6500, &|_: &u32| false);
    assert_eq!(conn.to_close.len(), 1);
    conn.collect(true, 6500, &|_: &u32| true);
    assert!(conn.to_close.is_empty());
    // at 20501 the second has outlived its lifetime
    conn.collect(true, 20_501, &|_: &u32| true);
    assert!(conn.available[0].1.is_empty());
    assert!(conn.to_close.is_empty());
    assert!(!conn.pool.modified);
}

#[test]
fn test_release_close_and_drop() {
    let mut conn: ClientConnector<u32, ()> = ClientConnector::default().conn_lifetime(100);
    let mut leases = Vec::new();
    for (i, host) in ["a", "a", "b", "c"].iter().enumerate() {
        assert!(matches!(conn.acquire(&key(host), 0, &idle), Acquire::Available));
        let slot = AcquiredConn(key(host), true);
        leases.push(Connection::new(key(host), Some(slot), i as u32, 0));
    }
    assert_eq!(conn.acquired, 4);
    assert_eq!(per_host_sum(&conn), 4);

    let c = leases.pop().unwrap();
    assert_eq!(c.discard(&mut conn.pool), 3);
    let b = leases.pop().unwrap();
    b.close(&mut conn.pool);
    let a2 = leases.pop().unwrap();
    a2.release(&mut conn.pool);
    assert!(conn.pool.modified);
    conn.drain(50);
    assert_eq!(conn.acquired, 1);
    assert_eq!(per_host_sum(&conn), 1);
    assert_eq!(conn.acquired_per_host.len(), 1);
    assert_eq!(conn.to_close.len(), 1);
    assert_eq!(conn.to_close[0].stream, 2);
    assert_eq!(conn.available.len(), 1);
    assert_eq!(conn.available[0].1[0].0, 50);

    // one that comes back at the end of its lifetime is not kept
    let a1 = leases.pop().unwrap();
    a1.release(&mut conn.pool);
    conn.drain(100);
    assert_eq!(conn.acquired, 0);
    assert_eq!(conn.available[0].1.len(), 1);

    // a slot is given back once
    let mut slot = AcquiredConn(key("z"), true);
    slot.discard(&mut conn.pool);
    slot.discard(&mut conn.pool);
    assert_eq!(conn.pool.keys.len(), 1);
    // a connection that no pool issued changes nothing
    let free = Connection::from_stream(9u32, 0);
    free.release(&mut conn.pool);
    assert!(conn.pool.to_release.is_empty());
    conn.drain(100);
    assert_eq!(conn.acquired, 0);
}

#[test]
fn test_waiters_in_order() {
    let mut conn: ClientConnector<u32, ()> = ClientConnector::default().limit(0).limit_per_host(1);
    assert!(matches!(conn.acquire(&key("a"), 0, &idle), Acquire::Available));
    let first = conn.enqueue(&key("a"), 10, 100, 1);
    let second = conn.enqueue(&key("a"), 20, 50, 2);
    let third = conn.enqueue(&key("a"), 30, 500, 3);
    let other = conn.enqueue(&key("b"), 40, 500, 4);
    assert_eq!((first.wait, second.wait, third.wait), (110, 70, 530));
    assert_eq!(conn.wait_timeout, Some(70));

    // the second has expired at 80; the others stay in their order
    let expired = conn.collect_waiters(80);
    assert_eq!(expired, vec![second]);
    assert_eq!(conn.wait_timeout, Some(110));
    assert_eq!(conn.waiters[0].1.len(), 2);

    // nothing is free for `a`; `b` is served
    let actions = conn.maintain(90, &idle, &never);
    assert_eq!(actions.len(), 1);
    assert!(matches!(&actions[0], WaiterAction::Dial(w, slot) if *w == other && slot.0.host == "b"));
    assert_eq!(conn.waiters[0].1.len(), 2);
    assert_eq!(conn.waiters[0].1[0], first);
    assert_eq!(conn.wait_timeout, Some(110));

    // the slot of `a` comes back: the first waiter gets it, the third goes on waiting
    conn.pool.release_key(key("a"));
    let actions = conn.maintain(100, &idle, &never);
    assert_eq!(actions.len(), 1);
    assert!(matches!(&actions[0], WaiterAction::Dial(w, _) if *w == first));
    assert_eq!(conn.waiters[0].1.len(), 1);
    assert_eq!(conn.waiters[0].1[0], third);
    assert_eq!(conn.wait_timeout, Some(530));

    // a waiter that nobody listens to does not take the slot
    conn.pool.release_key(key("a"));
    let fourth = conn.enqueue(&key("a"), 100, 1000, 1);
    let gone = third.id;
    let actions = conn.maintain(110, &idle, &|id: u64| id == gone);
    assert_eq!(actions.len(), 2);
    assert!(matches!(&actions[0], WaiterAction::Canceled(w) if *w == third));
    assert!(matches!(&actions[1], WaiterAction::Dial(w, _) if *w == fourth));
    assert_eq!(conn.wait_timeout, None);

    // deadlines that pass come first, as expired
    let late = conn.enqueue(&key("a"), 200, 5, 1);
    let actions = conn.maintain(300, &idle, &never);
    assert!(matches!(&actions[0], WaiterAction::Expired(w) if *w == late));
    assert_eq!(conn.enqueue(&key("a"), u64::MAX - 1, 5, 1).wait, u64::MAX);
}

#[test]
fn test_dial_outcomes() {
    let mut conn: ClientConnector<u32, ()> = ClientConnector::default();
    match conn.establish(AcquiredConn(key("a"), true), false, Ok(5), 42) {
        Dialed::Ready(c) => {
            assert_eq!((c.stream, c.ts), (5, 42));
            assert_eq!(c.key.host, "a");
            assert!(c.pool.unwrap().1);
        }
        other => panic!("unexpected {:?}", other),
    }
    assert!(matches!(
        conn.establish(AcquiredConn(key("a"), true), false, Err(ConnectorError::Timeout), 0),
        Dialed::Failed(ClientConnectorError::Timeout)
    ));
    assert!(matches!(
        conn.establish(AcquiredConn(key("a"), true), false, Err(ConnectorError::NoRecords), 0),
        Dialed::Failed(ClientConnectorError::Connector(ConnectorError::NoRecords))
    ));
    // each failure gave its slot back
    assert_eq!(conn.pool.keys.len(), 2);
    assert!(matches!(
        conn.establish(AcquiredConn(key("a"), false), true, Ok(5), 0),
        Dialed::Failed(ClientConnectorError::SslIsNotSupported)
    ));
    assert_eq!(conn.pool.keys.len(), 2);

    let mut tls: ClientConnector<u32, u8> = ClientConnector::with_connector(1);
    assert!(matches!(
        tls.establish(AcquiredConn(key("a"), true), true, Ok(5), 0),
        Dialed::Handshake(_, 5)
    ));
    assert!(matches!(tls.secured(AcquiredConn(key("a"), true), Ok(6), 9), Ok(c) if c.stream == 6 && c.ts == 9));
    assert!(matches!(
        tls.secured(AcquiredConn(key("a"), true), Err("bad certificate".to_owned()), 9),
        Err(ClientConnectorError::SslError(_))
    ));
    assert_eq!(tls.pool.keys.len(), 1);
    assert!(matches!(
        ClientConnectorError::from(ConnectorError::Timeout),
        ClientConnectorError::Timeout
    ));
    assert!(matches!(
        ClientConnectorError::from(ConnectorError::IoError("x".to_owned())),
        ClientConnectorError::Connector(ConnectorError::IoError(_))
    ));
}

#[test]
fn test_keys() {
    assert!(key("a").same(&key("a")));
    assert!(!key("a").same(&key("b")));
    assert!(!key("a").same(&Key { host: "a".to_owned(), port: 80, ssl: true }));
    let empty = Key::empty();
    assert_eq!((empty.host.as_str(), empty.port, empty.ssl), ("", 0, false));
    assert!(key("a").clone().same(&key("a")));
}

#[test]
fn test_probe_of_read() {
    assert_eq!(Probe::from_read(ReadOutcome::WouldBlock), Probe::Idle);
    assert_eq!(Probe::from_read(ReadOutcome::Read(2)), Probe::Data);
    assert_eq!(Probe::from_read(ReadOutcome::Read(0)), Probe::Closed);
    assert_eq!(Probe::from_read(ReadOutcome::Failed), Probe::Closed);
}

#[test]
fn test_periodic_pass_shuts_down_stale() {
    let mut conn = with_idle();
    // at 6500 the first idle connection is stale; nothing shuts down yet
    conn.collect(true, 6500, &|_: &u32| false);
    assert_eq!(conn.available[0].1.len(), 1);
    assert_eq!(conn.available[0].1[0].1.stream, 2);
    assert_eq!(conn.to_close.len(), 1);
    assert_eq!(conn.to_close[0].stream, 1);
    // the next pass is done with it
    conn.collect(true, 6500, &|s: &u32| *s == 1);
    assert!(conn.to_close.is_empty());
    assert_eq!(conn.available[0].1.len(), 1);
}

#[test]
fn test_maintain_leaves_the_rest() {
    let mut conn = with_idle();
    let idle_before = conn.available[0].1.len();
    assert_eq!(idle_before, 2);
    assert!(!conn.pool.modified);
    // nothing came back and nobody waits: the pass changes nothing
    let actions = conn.maintain(2500, &idle, &never);
    assert!(actions.is_empty());
    assert_eq!(conn.available[0].1.len(), 2);
    assert!(conn.to_close.is_empty());
    assert_eq!(conn.acquired, 0);
    assert_eq!(per_host_sum(&conn), 0);

    // a lease that comes back to be closed is on the close list after the
    // pass, and the mailbox is empty
    let k = key("a");
    let slot = match conn.acquire(&k, 2500, &idle) {
        Acquire::Acquired(c) => c,
        other => panic!("unexpected {:?}", other),
    };
    assert_eq!(conn.acquired, 1);
    let lease = Connection::new(k.clone(), Some(AcquiredConn(k.clone(), true)), slot.stream, slot.ts);
    lease.close(&mut conn.pool);
    assert!(conn.pool.modified);
    let actions = conn.maintain(2600, &idle, &never);
    assert!(actions.is_empty());
    assert!(!conn.pool.modified);
    assert!(conn.pool.to_close.is_empty());
    assert!(conn.pool.keys.is_empty());
    assert_eq!(conn.acquired, 0);
    assert_eq!(conn.to_close.len(), 1);
    assert_eq!(conn.to_close[0].stream, slot.stream);
    assert_eq!(conn.available[0].1.len(), 1);
}

#[test]
fn test_refused_uri_keeps_reason() {
    let err = Connect::new("http://bad host/").unwrap_err();
    assert!(!format!("{}", err.cause).is_empty());
    let other = Connect::new("").unwrap_err();
    assert_ne!(format!("{}", err.cause), format!("{}", other.cause));
}
