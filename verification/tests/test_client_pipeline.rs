use actix_web::client::connector::ClientConnectorError;
use actix_web::client::pipeline::{
    BodyFrame, BodyPoll, ConnectPoll, Decoded, FlushPoll, HeadPoll, HttpResponseParserError,
    IoBody, PayloadPoll, Pipeline, ReadAction, ReadEvent, ReadPoll, RunningState, SendAction,
    SendEvent, SendRequest, SendRequestError, State, WriteAction, WriteEvent, WritePoll,
};
use actix_web::server::WriterState;
use actix_web::header::ContentEncoding;

fn polled() -> SendEvent {
    SendEvent::Polled { timed_out: false }
}

#[test]
fn test_send_request_path() {
    let mut req = SendRequest::new().conn_timeout(250);
    assert_eq!(req.poll_timeout(), 5000);
    assert_eq!(req.timeout, Some(5000));
    assert!(matches!(req.poll(polled()), SendAction::Connect { conn_timeout: 250 }));
    assert_eq!(req.state, State::Connect);
    assert!(matches!(req.poll(polled()), SendAction::PollConnect));
    assert!(matches!(req.poll(SendEvent::Connecting(ConnectPoll::NotReady)), SendAction::NotReady));
    assert!(matches!(req.poll(SendEvent::Connecting(ConnectPoll::Connected)), SendAction::Start));
    assert_eq!(req.state, State::Connection);
    assert!(matches!(req.poll(SendEvent::Started(Ok(()))), SendAction::Write));
    assert_eq!(req.state, State::Send);
    assert!(matches!(req.poll(SendEvent::Written(Ok(()))), SendAction::Parse));
    assert!(matches!(req.poll(SendEvent::Parsed(HeadPoll::NotReady)), SendAction::NotReady));
    assert!(matches!(req.poll(polled()), SendAction::Write));
    assert!(matches!(req.poll(SendEvent::Written(Ok(()))), SendAction::Parse));
    assert!(matches!(req.poll(SendEvent::Parsed(HeadPoll::Ready(None))), SendAction::Ready));
    assert_eq!(req.state, State::Done);
}

#[test]
fn test_send_request_errors() {
    let mut req = SendRequest::with_connection().timeout(100);
    assert_eq!(req.poll_timeout(), 100);
    assert_eq!(req.state, State::Connection);
    assert!(matches!(
        req.poll(SendEvent::Polled { timed_out: true }),
        SendAction::Fail(SendRequestError::Timeout)
    ));
    assert_eq!(req.state, State::Done);

    let mut req = SendRequest::with_connector();
    let _ = req.poll(polled());
    assert!(matches!(
        req.poll(SendEvent::Connecting(ConnectPoll::Failed(ClientConnectorError::Timeout))),
        SendAction::Fail(SendRequestError::Timeout)
    ));

    let mut req = SendRequest::new();
    let _ = req.poll(polled());
    assert!(matches!(
        req.poll(SendEvent::Connecting(ConnectPoll::Failed(ClientConnectorError::InvalidUrl))),
        SendAction::Fail(SendRequestError::Connector(ClientConnectorError::InvalidUrl))
    ));

    let mut req = SendRequest::new();
    let _ = req.poll(polled());
    assert!(matches!(
        req.poll(SendEvent::Connecting(ConnectPoll::Canceled)),
        SendAction::Fail(SendRequestError::Connector(ClientConnectorError::Disconnected))
    ));

    let mut req = SendRequest::with_connection();
    assert!(matches!(
        req.poll(SendEvent::Started(Err("broken pipe".to_owned()))),
        SendAction::Fail(SendRequestError::Io(_))
    ));

    let mut req = SendRequest::with_connection();
    let _ = req.poll(SendEvent::Started(Ok(())));
    assert!(matches!(
        req.poll(SendEvent::Parsed(HeadPoll::Failed(HttpResponseParserError::Disconnected))),
        SendAction::Fail(SendRequestError::ParseError(HttpResponseParserError::Disconnected))
    ));

    // an answer that the state did not ask for changes nothing
    let mut req = SendRequest::new();
    assert!(matches!(req.poll(SendEvent::Written(Ok(()))), SendAction::NotReady));
    assert_eq!(req.state, State::New);

    assert!(matches!(SendRequestError::from(ClientConnectorError::Timeout), SendRequestError::Timeout));
    assert!(matches!(
        SendRequestError::from(ClientConnectorError::SslIsNotSupported),
        SendRequestError::Connector(ClientConnectorError::SslIsNotSupported)
    ));
}

#[test]
fn test_running_state() {
    let mut state = RunningState::Running;
    state.pause();
    assert_eq!(state, RunningState::Paused);
    state.resume();
    assert_eq!(state, RunningState::Running);
    let mut state = RunningState::Done;
    state.pause();
    assert_eq!(state, RunningState::Done);
    state.resume();
    assert_eq!(state, RunningState::Done);
}

#[test]
fn test_write_payload_body() {
    let mut pl = Pipeline::new(IoBody::Payload, false);
    assert_eq!(pl.poll_write(WriteEvent::Enter), WriteAction::PollPayload);
    assert_eq!(pl.poll_write(WriteEvent::Body(BodyPoll::Chunk)), WriteAction::Write(0));
    assert_eq!(pl.poll_write(WriteEvent::Written(Some(WriterState::Done))), WriteAction::PollPayload);
    assert_eq!(pl.poll_write(WriteEvent::Body(BodyPoll::Chunk)), WriteAction::Write(0));
    // the writer asks for a pause
    assert_eq!(pl.poll_write(WriteEvent::Written(Some(WriterState::Pause))), WriteAction::Flush);
    assert_eq!(pl.write_state, RunningState::Paused);
    assert_eq!(
        pl.poll_write(WriteEvent::Flushed(FlushPoll::NotReady)),
        WriteAction::Return { poll: WritePoll::NotReady, drained: false }
    );
    // while paused the body is not asked
    assert_eq!(pl.poll_write(WriteEvent::Enter), WriteAction::Flush);
    assert_eq!(pl.poll_write(WriteEvent::Flushed(FlushPoll::Ready)), WriteAction::Again { drained: false });
    assert_eq!(pl.write_state, RunningState::Running);
    assert_eq!(pl.poll_write(WriteEvent::Enter), WriteAction::PollPayload);
    assert_eq!(pl.poll_write(WriteEvent::Body(BodyPoll::NotReady)), WriteAction::Flush);
    assert_eq!(
        pl.poll_write(WriteEvent::Flushed(FlushPoll::Ready)),
        WriteAction::Return { poll: WritePoll::NotReady, drained: false }
    );
    assert_eq!(pl.poll_write(WriteEvent::Enter), WriteAction::PollPayload);
    assert_eq!(pl.poll_write(WriteEvent::Body(BodyPoll::End)), WriteAction::WriteEof);
    assert_eq!(pl.poll_write(WriteEvent::Written(Some(WriterState::Done))), WriteAction::Flush);
    assert!(pl.disconnected);
    assert_eq!(pl.poll_write(WriteEvent::Flushed(FlushPoll::Ready)), WriteAction::Again { drained: false });
    assert_eq!(pl.write_state, RunningState::Done);
    assert_eq!(
        pl.poll_write(WriteEvent::Enter),
        WriteAction::Return { poll: WritePoll::Ready, drained: false }
    );
}

#[test]
fn test_write_actor_body() {
    let mut pl = Pipeline::new(IoBody::Actor, false);
    assert_eq!(pl.poll_write(WriteEvent::Enter), WriteAction::PollContext { disconnected: false });
    let frames = vec![BodyFrame::Drain, BodyFrame::Chunk(true), BodyFrame::Chunk(true), BodyFrame::Drain];
    assert_eq!(pl.poll_write(WriteEvent::Body(BodyPoll::Frames(frames))), WriteAction::Write(1));
    assert!(pl.drain);
    assert_eq!(pl.poll_write(WriteEvent::Written(Some(WriterState::Pause))), WriteAction::Write(2));
    assert_eq!(pl.poll_write(WriteEvent::Written(Some(WriterState::Done))), WriteAction::Flush);
    assert_eq!(pl.body, IoBody::Actor);
    // the drain request is answered when the flush completes
    assert_eq!(pl.poll_write(WriteEvent::Flushed(FlushPoll::Ready)), WriteAction::Again { drained: true });
    assert!(!pl.drain);

    assert_eq!(pl.poll_write(WriteEvent::Enter), WriteAction::PollContext { disconnected: false });
    assert_eq!(pl.poll_write(WriteEvent::Body(BodyPoll::Frames(vec![]))), WriteAction::Flush);
    assert_eq!(pl.poll_write(WriteEvent::Flushed(FlushPoll::Ready)), WriteAction::Again { drained: false });

    assert_eq!(pl.poll_write(WriteEvent::Enter), WriteAction::PollContext { disconnected: false });
    let frames = vec![BodyFrame::Chunk(true)];
    assert_eq!(pl.poll_write(WriteEvent::Body(BodyPoll::Frames(frames))), WriteAction::Write(0));
    assert_eq!(
        pl.poll_write(WriteEvent::Written(Some(WriterState::Done))),
        WriteAction::PollContext { disconnected: false }
    );
    let frames = vec![BodyFrame::Chunk(true), BodyFrame::Chunk(false), BodyFrame::Chunk(true)];
    assert_eq!(pl.poll_write(WriteEvent::Body(BodyPoll::Frames(frames))), WriteAction::Write(0));
    assert_eq!(pl.poll_write(WriteEvent::Written(Some(WriterState::Done))), WriteAction::WriteEof);
    assert!(pl.disconnected);
    assert_eq!(pl.poll_write(WriteEvent::Written(Some(WriterState::Done))), WriteAction::Flush);
    assert_eq!(pl.poll_write(WriteEvent::Flushed(FlushPoll::Ready)), WriteAction::Again { drained: false });
    assert_eq!(pl.write_state, RunningState::Done);
}

#[test]
fn test_write_failures() {
    let failed = WriteAction::Return { poll: WritePoll::Failed, drained: false };
    let mut pl = Pipeline::new(IoBody::Payload, false);
    let _ = pl.poll_write(WriteEvent::Enter);
    assert_eq!(pl.poll_write(WriteEvent::Body(BodyPoll::Failed)), failed);
    let mut pl = Pipeline::new(IoBody::Payload, false);
    let _ = pl.poll_write(WriteEvent::Enter);
    let _ = pl.poll_write(WriteEvent::Body(BodyPoll::Chunk));
    assert_eq!(pl.poll_write(WriteEvent::Written(None)), failed);
    let mut pl = Pipeline::new(IoBody::Done, false);
    assert_eq!(pl.poll_write(WriteEvent::Enter), WriteAction::Flush);
    assert!(pl.disconnected && pl.done);
    assert_eq!(pl.poll_write(WriteEvent::Flushed(FlushPoll::Failed)), failed);
    // an answer that the stage did not ask for
    let mut pl = Pipeline::new(IoBody::Payload, false);
    assert_eq!(pl.poll_write(WriteEvent::Flushed(FlushPoll::Ready)), failed);
}

#[test]
fn test_read_body() {
    let mut pl = Pipeline::new(IoBody::Done, true);
    assert!(matches!(
        pl.parse(HeadPoll::Ready(Some(" GZIP ".to_owned()))),
        HeadPoll::Ready(Some(_))
    ));
    assert_eq!(pl.decompress, Some(ContentEncoding::Gzip));

    assert_eq!(pl.poll(ReadEvent::Enter), ReadAction::Write);
    assert_eq!(pl.poll(ReadEvent::Wrote(WritePoll::Ready)), ReadAction::ParsePayload);
    assert_eq!(pl.poll(ReadEvent::Payload(PayloadPoll::Chunk)), ReadAction::Feed);
    assert_eq!(pl.poll(ReadEvent::Fed(Decoded::WouldBlock)), ReadAction::ParsePayload);
    assert_eq!(pl.poll(ReadEvent::Payload(PayloadPoll::Chunk)), ReadAction::Feed);
    assert_eq!(
        pl.poll(ReadEvent::Fed(Decoded::Chunk)),
        ReadAction::Return { poll: ReadPoll::Chunk, release: false }
    );
    assert_eq!(pl.poll(ReadEvent::Enter), ReadAction::Write);
    assert_eq!(pl.poll(ReadEvent::Wrote(WritePoll::Ready)), ReadAction::ParsePayload);
    assert_eq!(pl.poll(ReadEvent::Payload(PayloadPoll::End)), ReadAction::FeedEof);
    assert!(!pl.parser);
    assert_eq!(pl.decompress, None);
    assert_eq!(
        pl.poll(ReadEvent::Fed(Decoded::Chunk)),
        ReadAction::Return { poll: ReadPoll::Chunk, release: true }
    );
    assert!(!pl.conn);
    assert_eq!(pl.poll(ReadEvent::Enter), ReadAction::Return { poll: ReadPoll::End, release: false });
}

#[test]
fn test_read_body_plain() {
    let mut pl = Pipeline::new(IoBody::Done, true);
    let _ = pl.parse(HeadPoll::Ready(Some("identity".to_owned())));
    assert_eq!(pl.decompress, None);
    let _ = pl.parse(HeadPoll::Ready(None));
    assert_eq!(pl.decompress, None);
    let mut raw = Pipeline::new(IoBody::Done, false);
    let _ = raw.parse(HeadPoll::Ready(Some("br".to_owned())));
    assert_eq!(raw.decompress, None);

    assert_eq!(pl.poll(ReadEvent::Enter), ReadAction::Write);
    // the writer still has to run: the body cannot end yet
    assert_eq!(pl.poll(ReadEvent::Wrote(WritePoll::NotReady)), ReadAction::ParsePayload);
    assert_eq!(
        pl.poll(ReadEvent::Payload(PayloadPoll::Chunk)),
        ReadAction::Return { poll: ReadPoll::Chunk, release: false }
    );
    assert_eq!(pl.poll(ReadEvent::Enter), ReadAction::Write);
    assert_eq!(pl.poll(ReadEvent::Wrote(WritePoll::NotReady)), ReadAction::ParsePayload);
    assert_eq!(
        pl.poll(ReadEvent::Payload(PayloadPoll::End)),
        ReadAction::Return { poll: ReadPoll::NotReady, release: false }
    );
    assert!(pl.conn);
    assert_eq!(pl.poll(ReadEvent::Enter), ReadAction::Write);
    assert_eq!(
        pl.poll(ReadEvent::Wrote(WritePoll::Ready)),
        ReadAction::Return { poll: ReadPoll::End, release: true }
    );
    assert!(!pl.conn);
    assert!(!pl.release_conn());

    let mut pl = Pipeline::new(IoBody::Done, false);
    assert_eq!(pl.poll(ReadEvent::Enter), ReadAction::Write);
    assert_eq!(
        pl.poll(ReadEvent::Wrote(WritePoll::Failed)),
        ReadAction::Return { poll: ReadPoll::Failed, release: false }
    );
    // dropped before the end: the connection is to be closed
    assert!(pl.drop());
    assert!(!pl.drop());
    assert!(matches!(pl.parse(HeadPoll::Ready(None)), HeadPoll::NotReady));
}
