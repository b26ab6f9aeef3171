use actix_web::payload::{Async, PayloadHelper};
use actix_web::ws::frame::Frame;
use actix_web::ws::proto::{CloseCode, OpCode};
use rand::distributions::Alphanumeric;
use rand::Rng;

/// What a peer reads off the connection.
#[derive(Debug, PartialEq)]
enum Message {
    Text(String),
    Binary(Vec<u8>),
    Ping(String),
    Pong(String),
    Close(CloseCode),
}

/// One end of a connection: what the other end wrote and this end has not
/// read yet.
struct Peer {
    incoming: PayloadHelper,
    server: bool,
}

impl Peer {
    fn new(server: bool) -> Peer {
        Peer { incoming: PayloadHelper::empty(), server }
    }

    /// Puts a frame on the wire to this peer; what a client writes is
    /// masked.
    fn receive(&mut self, payload: Vec<u8>, code: OpCode) {
        let bytes = Frame::message(payload, code, true, self.server);
        self.incoming.feed(&bytes);
    }

    fn receive_close(&mut self, code: CloseCode, reason: &str) {
        let bytes = Frame::close(code, reason, self.server);
        self.incoming.feed(&bytes);
    }

    fn read(&mut self) -> Option<Message> {
        let frame = match Frame::parse(&mut self.incoming, self.server, 65_536) {
            Ok(Async::Ready(Some(frame))) => frame,
            _ => return None,
        };
        let (_, opcode, payload) = frame.unpack();
        Some(match opcode {
            OpCode::Text => Message::Text(String::from_utf8(payload).unwrap()),
            OpCode::Binary => Message::Binary(payload),
            OpCode::Ping => Message::Ping(String::from_utf8(payload).unwrap()),
            OpCode::Pong => Message::Pong(String::from_utf8(payload).unwrap()),
            OpCode::Close => {
                let code = if payload.len() >= 2 {
                    CloseCode::from(u16::from(payload[0]) * 256 + u16::from(payload[1]))
                } else {
                    CloseCode::Status
                };
                Message::Close(code)
            }
            other => panic!("unexpected {:?}", other),
        })
    }
}

/// A server that answers a ping with a pong, and text, binary data and a
/// close with the same.
fn echo(server: &mut Peer, client: &mut Peer) {
    match server.read().unwrap() {
        Message::Ping(msg) => client.receive(msg.into_bytes(), OpCode::Pong),
        Message::Text(text) => client.receive(text.into_bytes(), OpCode::Text),
        Message::Binary(bin) => client.receive(bin, OpCode::Binary),
        Message::Close(reason) => client.receive_close(reason, ""),
        _ => (),
    }
}

#[test]
fn test_simple() {
    let mut server = Peer::new(true);
    let mut client = Peer::new(false);

    server.receive(b"text".to_vec(), OpCode::Text);
    echo(&mut server, &mut client);
    assert_eq!(client.read(), Some(Message::Text("text".to_owned())));

    server.receive(b"text".to_vec(), OpCode::Binary);
    echo(&mut server, &mut client);
    assert_eq!(client.read(), Some(Message::Binary(b"text".to_vec())));

    server.receive(b"ping".to_vec(), OpCode::Ping);
    echo(&mut server, &mut client);
    assert_eq!(client.read(), Some(Message::Pong("ping".to_owned())));

    server.receive_close(CloseCode::Normal, "");
    echo(&mut server, &mut client);
    assert_eq!(client.read(), Some(Message::Close(CloseCode::Normal)));
}

#[test]
fn test_large_text() {
    let data: String =
        rand::thread_rng().sample_iter(&Alphanumeric).take(65_536).map(char::from).collect();

    let mut server = Peer::new(true);
    let mut client = Peer::new(false);

    for _ in 0..100 {
        server.receive(data.clone().into_bytes(), OpCode::Text);
        echo(&mut server, &mut client);
        assert_eq!(client.read(), Some(Message::Text(data.clone())));
    }
}

#[test]
fn test_large_bin() {
    let data: String =
        rand::thread_rng().sample_iter(&Alphanumeric).take(65_536).map(char::from).collect();

    let mut server = Peer::new(true);
    let mut client = Peer::new(false);

    for _ in 0..100 {
        server.receive(data.clone().into_bytes(), OpCode::Binary);
        echo(&mut server, &mut client);
        assert_eq!(client.read(), Some(Message::Binary(data.clone().into_bytes())));
    }
}

#[test]
fn test_server_send_text() {
    let data = Some(Message::Text("0".repeat(65_536)));

    let mut client = Peer::new(false);

    for _ in 0..10_000 {
        client.receive("0".repeat(65_536).into_bytes(), OpCode::Text);
        assert_eq!(client.read(), data);
    }
}

#[test]
fn test_server_send_bin() {
    let data = Some(Message::Binary("0".repeat(65_536).into_bytes()));

    let mut client = Peer::new(false);

    for _ in 0..10_000 {
        client.receive("0".repeat(65_536).into_bytes(), OpCode::Binary);
        assert_eq!(client.read(), data);
    }
}
