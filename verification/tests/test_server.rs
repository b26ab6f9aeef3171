use actix_web::httpresponse::{Body, HttpResponse};
use actix_web::server::h2writer::{Capacity, H2Writer, StreamAction, StreamEvent, CHUNK_SIZE};
use actix_web::text::convert_usize;
use actix_web::server::{WriterState, MAX_WRITE_BUFFER_SIZE};
use actix_web::server::settings::{ServerSettings, WorkerSettings};

#[test]
fn test_server_settings() {
    let settings = ServerSettings::default();
    assert_eq!(settings.host(), "localhost:8080");
    assert!(!settings.secure());
    assert_eq!(settings.local_addr(), None);

    let settings = ServerSettings::new(Some("127.0.0.1:8088".to_owned()), &None, true);
    assert_eq!(settings.host(), "127.0.0.1:8088");
    assert!(settings.secure());
    assert_eq!(settings.local_addr(), Some(&"127.0.0.1:8088".to_owned()));

    let settings =
        ServerSettings::new(Some("127.0.0.1:8088".to_owned()), &Some("example.org".to_owned()), false);
    assert_eq!(settings.host(), "example.org");
    assert_eq!(settings.clone().host(), "example.org");

    let settings = ServerSettings::new(None, &None, false);
    assert_eq!(settings.host(), "localhost");
}

#[test]
fn test_worker_settings() {
    let mut settings = WorkerSettings::new(vec![1u8, 2], Some(30));
    assert!(settings.keep_alive_enabled());
    assert_eq!(settings.keep_alive(), 30);
    assert_eq!(settings.num_channels(), 0);
    assert!(settings.head().channels.is_empty());
    settings.handlers().push(3);
    assert_eq!(settings.h, vec![1, 2, 3]);

    settings.remove_channel();
    assert_eq!(settings.num_channels(), 0);
    settings.add_channel();
    settings.add_channel();
    settings.remove_channel();
    assert_eq!(settings.num_channels(), 1);

    assert!(!WorkerSettings::new(vec![0u8], Some(0)).keep_alive_enabled());
    let none: WorkerSettings<u8> = WorkerSettings::new(vec![], None);
    assert!(!none.keep_alive_enabled());
    assert_eq!(none.keep_alive(), 0);
}

#[test]
fn test_worker_pools() {
    let mut settings: WorkerSettings<u8> = WorkerSettings::new(vec![], None);
    let mut bytes = settings.get_shared_bytes();
    assert!(bytes.is_empty());
    bytes.extend_from_slice(b"abc");
    settings.release_bytes(bytes);
    assert_eq!(settings.bytes.len(), 1);
    assert!(settings.get_shared_bytes().is_empty());
    assert_eq!(settings.bytes.len(), 0);
    for _ in 0..200 {
        settings.release_bytes(vec![1]);
    }
    assert_eq!(settings.bytes.len(), 128);

    let mut msg = settings.get_http_message();
    assert!(msg.keep_alive && !msg.upgrade && msg.headers.is_empty());
    msg.upgrade = true;
    msg.headers.push(("a".to_owned(), "b".to_owned()));
    settings.release_http_message(msg);
    let msg = settings.get_http_message();
    assert!(msg.keep_alive && !msg.upgrade && msg.headers.is_empty());
}

#[test]
fn test_decimal() {
    assert_eq!(convert_usize(0), "0");
    assert_eq!(convert_usize(7), "7");
    assert_eq!(convert_usize(10), "10");
    assert_eq!(convert_usize(65_536), "65536");
    assert_eq!(convert_usize(1_234_567_890), "1234567890");
}

#[test]
fn test_h2_start() {
    let mut writer = H2Writer::new(Vec::new());
    let mut msg = HttpResponse::ok();
    msg.headers_mut().append("connection", "keep-alive");
    msg.headers_mut().append("x", "1");
    msg.headers_mut().append("transfer-encoding", "chunked");
    msg.body = Body::Binary(b"hello world!".to_vec());
    assert!(!writer.start(&mut msg, "Thu, 01 Jan 1970 00:00:00 GMT"));
    assert!(writer.flags.started && !writer.flags.eof);
    assert_eq!(
        msg.headers().entries,
        vec![
            ("x".to_owned(), "1".to_owned()),
            ("date".to_owned(), "Thu, 01 Jan 1970 00:00:00 GMT".to_owned()),
            ("content-length".to_owned(), "12".to_owned()),
        ]
    );
    assert_eq!(
        writer.started(true, &msg.body, b"hello world!", 9),
        Some((WriterState::Pause, 12))
    );
    assert!(writer.flags.eof && writer.has_stream);
    assert_eq!(writer.written(), 12);
    assert_eq!(writer.buffer, b"hello world!".to_vec());

    let mut writer = H2Writer::new(Vec::new());
    let mut msg = HttpResponse::new(204);
    msg.headers_mut().append("date", "mine");
    assert!(writer.start(&mut msg, "other"));
    assert!(writer.flags.eof);
    assert_eq!(msg.headers().get("date"), Some("mine"));
    assert_eq!(msg.headers().get("content-length"), Some("0"));
    assert_eq!(writer.started(false, &msg.body, b"", 0), None);
    assert_eq!(writer.started(true, &msg.body, b"", 77), Some((WriterState::Done, 0)));
    assert_eq!(writer.buffer_capacity, 77);
    assert!(writer.reset());
    assert!(!writer.reset());

    let mut writer = H2Writer::new(Vec::new());
    let mut msg = HttpResponse::ok();
    msg.body = Body::Streaming;
    assert!(!writer.start(&mut msg, "d"));
    assert_eq!(msg.headers().get("content-length"), None);
}

#[test]
fn test_h2_write() {
    let mut writer = H2Writer::new(Vec::new());
    assert_eq!(writer.write(3, b"abc"), WriterState::Done);
    assert_eq!(writer.written(), 3);
    let big = vec![0u8; MAX_WRITE_BUFFER_SIZE];
    assert_eq!(writer.write(big.len(), &big), WriterState::Pause);
    assert_eq!(writer.buffer.len(), MAX_WRITE_BUFFER_SIZE + 3);
    assert_eq!(writer.write_eof(b"", false), None);
    assert_eq!(writer.write_eof(b"z", true), Some(WriterState::Pause));
    assert!(writer.flags.eof);

    let mut writer = H2Writer::new(Vec::new());
    writer.flags.disconnected = true;
    assert_eq!(writer.write(3, b"abc"), WriterState::Done);
    assert!(writer.buffer.is_empty());
    assert_eq!(writer.write_eof(b"", true), Some(WriterState::Done));
}

#[test]
fn test_h2_flush() {
    let mut writer = H2Writer::new(Vec::new());
    assert_eq!(writer.poll_completed(StreamEvent::Enter), StreamAction::Done);
    writer.flags.started = true;
    writer.has_stream = true;
    assert_eq!(writer.poll_completed(StreamEvent::Enter), StreamAction::Done);
    writer.flags.eof = true;
    assert_eq!(
        writer.poll_completed(StreamEvent::Enter),
        StreamAction::Send { bytes: vec![], eof: true }
    );

    writer.flags.eof = false;
    writer.buffer = (0..40_000u32).map(|i| i as u8).collect();
    writer.buffer_capacity = 50_000;
    assert_eq!(writer.poll_completed(StreamEvent::Enter), StreamAction::PollCapacity);
    assert_eq!(writer.poll_completed(StreamEvent::Capacity(Capacity::NotReady)), StreamAction::Done);
    writer.buffer_capacity = 10;
    assert_eq!(writer.poll_completed(StreamEvent::Capacity(Capacity::NotReady)), StreamAction::Pause);
    assert_eq!(writer.poll_completed(StreamEvent::Capacity(Capacity::Closed)), StreamAction::Done);
    assert_eq!(writer.poll_completed(StreamEvent::Capacity(Capacity::Failed)), StreamAction::Failed);

    match writer.poll_completed(StreamEvent::Capacity(Capacity::Ready(100))) {
        StreamAction::Send { bytes, eof } => {
            assert_eq!(bytes.len(), 100);
            assert_eq!(bytes[99], 99);
            assert!(!eof);
        }
        other => panic!("unexpected {:?}", other),
    }
    assert_eq!(writer.buffer.len(), 39_900);
    assert_eq!(writer.buffer[0], 100);
    assert_eq!(writer.written(), 100);
    assert_eq!(writer.poll_completed(StreamEvent::Sent(true)), StreamAction::Reserve(CHUNK_SIZE));
    writer.flags.eof = true;
    match writer.poll_completed(StreamEvent::Capacity(Capacity::Ready(1_000_000))) {
        StreamAction::Send { bytes, eof } => {
            assert_eq!(bytes.len(), 39_900);
            assert!(eof);
        }
        other => panic!("unexpected {:?}", other),
    }
    assert_eq!(writer.written(), 40_000);
    assert_eq!(writer.poll_completed(StreamEvent::Sent(true)), StreamAction::Pause);
    assert_eq!(writer.poll_completed(StreamEvent::Sent(true)), StreamAction::Done);

    writer.buffer = vec![1, 2, 3];
    let _ = writer.poll_completed(StreamEvent::Capacity(Capacity::Ready(1)));
    assert_eq!(writer.poll_completed(StreamEvent::Sent(false)), StreamAction::Failed);
    let _ = writer.poll_completed(StreamEvent::Capacity(Capacity::Ready(1)));
    assert_eq!(writer.poll_completed(StreamEvent::Sent(true)), StreamAction::Reserve(1));
}
