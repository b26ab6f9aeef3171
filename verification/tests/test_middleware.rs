use actix_web::header::{checked_header, ContentEncoding, HeaderMap, InvalidHeader, CONTENT_TYPE};
use actix_web::httprequest::HttpRequest;
use actix_web::httpresponse::HttpResponse;
use actix_web::middleware::defaultheaders::DefaultHeaders;
use actix_web::middleware::{Finished, Middleware, Response, Started};
use actix_web::pipeline::{
    Action, Answer, BodySource, Event, HandlerType, IoAction, IoEvent, IoStage, Pipeline,
    PipelineState, ProcessResponse, Pulled, Written,
};

#[test]
fn test_default_headers() {
    let mw = DefaultHeaders::build().header(CONTENT_TYPE, "0001").finish();

    let mut req: HttpRequest<()> = HttpRequest::default();

    let resp = HttpResponse::ok();
    let resp = match mw.response(&mut req, resp) {
        Ok(Response::Done(resp)) => resp,
        _ => panic!(),
    };
    assert_eq!(resp.headers().get(CONTENT_TYPE).unwrap(), "0001");

    let mut resp = HttpResponse::ok();
    resp.headers_mut().insert(CONTENT_TYPE, "0002");
    let resp = match mw.response(&mut req, resp) {
        Ok(Response::Done(resp)) => resp,
        _ => panic!(),
    };
    assert_eq!(resp.headers().get(CONTENT_TYPE).unwrap(), "0002");
}

#[test]
fn test_default_headers_fill_in() {
    let mut builder = DefaultHeaders::build();
    builder.header("X-Version", "0.2").header("x-version", "0.3").header("Server", "a");
    builder.content_type();
    assert_eq!(builder.try_header("bad name", "x"), Err(InvalidHeader::Name));
    assert_eq!(builder.try_header("x-ok", "bad\nvalue"), Err(InvalidHeader::Value));
    assert_eq!(builder.try_header("X-Ok", "fine"), Ok(()));
    let mw = builder.finish();
    assert!(builder.headers.is_none());
    // a finished builder takes headers and keeps none
    builder.header("x-late", "1");
    assert!(builder.headers.is_none());
    // and asks nothing of a name or a value that it does not keep
    builder.header("bad name", "bad\nvalue");
    assert_eq!(builder.try_header("bad name", "x"), Ok(()));
    assert!(builder.headers.is_none());

    let mut resp = HttpResponse::new(201);
    resp.headers_mut().append("server", "mine");
    let resp = mw.apply(resp);
    assert_eq!(resp.status(), 201);
    assert_eq!(resp.headers().len(), 4);
    assert_eq!(resp.headers().get("server"), Some("mine"));
    // names are kept in lower case; of two defaults with one name the first stands
    assert_eq!(resp.headers().get("x-version"), Some("0.2"));
    assert_eq!(resp.headers().get("x-ok"), Some("fine"));
    assert_eq!(resp.headers().get("content-type"), Some("application/octet-stream"));

    let mut req: HttpRequest<()> = HttpRequest::default();
    assert!(matches!(mw.start(&mut req), Ok(Started::Done)));
    assert!(matches!(mw.finish(&mut req, &resp), Finished::Done));
}

#[test]
fn test_header_map() {
    let mut map = HeaderMap::new();
    map.append("a", "1");
    map.append("b", "2");
    map.append("a", "3");
    assert!(map.contains_key("a"));
    assert!(!map.contains_key("A"));
    assert_eq!(map.get("a"), Some("1"));
    map.insert("a", "4");
    assert_eq!(map.len(), 2);
    assert_eq!(map.get("a"), Some("4"));
    assert_eq!(map.get("b"), Some("2"));
    map.remove("b");
    assert_eq!(map.get("b"), None);
    assert_eq!(checked_header("Content-Length", "12"), Ok(("content-length".to_owned(), "12".to_owned())));
    assert_eq!(checked_header("", "12"), Err(InvalidHeader::Name));
    assert_eq!(checked_header("a", "tab\tis fine"), Ok(("a".to_owned(), "tab\tis fine".to_owned())));
    assert_eq!(checked_header("a", "del\u{7f}"), Err(InvalidHeader::Value));
}

#[test]
fn test_content_encoding() {
    assert_eq!(ContentEncoding::from("gzip"), ContentEncoding::Gzip);
    assert_eq!(ContentEncoding::from(" GZip\t"), ContentEncoding::Gzip);
    assert_eq!(ContentEncoding::from("br"), ContentEncoding::Br);
    assert_eq!(ContentEncoding::from("Deflate"), ContentEncoding::Deflate);
    assert_eq!(ContentEncoding::from("identity"), ContentEncoding::Identity);
    assert_eq!(ContentEncoding::from("compress"), ContentEncoding::Auto);
    assert_eq!(ContentEncoding::from(""), ContentEncoding::Auto);
    assert!(ContentEncoding::Br.is_compression());
    assert!(!ContentEncoding::Identity.is_compression());
    assert!(!ContentEncoding::Auto.is_compression());
    assert_eq!(ContentEncoding::Deflate.as_str(), "deflate");
    assert_eq!(ContentEncoding::Auto.as_str(), "identity");
}

/// Drives a chain to its end; `stop_at` is the middleware whose start
/// answers with a response.
fn drive(mws: usize, stop_at: Option<usize>) -> Vec<Action> {
    let mut chain = Pipeline::new(mws, HandlerType::Default);
    let mut trace = Vec::new();
    let mut action = chain.poll(Event::Begin);
    loop {
        trace.push(action);
        action = match action {
            Action::Start(i) => {
                // an answer that is not ready changes nothing
                assert_eq!(chain.poll(Event::Started(Answer::NotReady)), Action::NotReady);
                if stop_at == Some(i) {
                    chain.poll(Event::Started(Answer::Response))
                } else {
                    chain.poll(Event::Started(Answer::Done))
                }
            }
            Action::Handle(_) => chain.poll(Event::Handled(Answer::Response)),
            Action::Respond(_) => chain.poll(Event::Responded(Answer::Done)),
            Action::Write => {
                assert_eq!(chain.poll(Event::Written(Answer::NotReady)), Action::NotReady);
                // an answer that nothing asked for changes nothing
                assert_eq!(chain.poll(Event::Finished(Answer::Done)), Action::NotReady);
                chain.poll(Event::Written(Answer::Done))
            }
            Action::Finish(_) => chain.poll(Event::Finished(Answer::Done)),
            Action::NotReady => panic!("stuck"),
            Action::Done => break,
        };
    }
    assert_eq!(chain.state, PipelineState::Completed);
    assert_eq!(chain.poll(Event::Begin), Action::Done);
    trace
}

#[test]
fn test_middleware_order() {
    let h = HandlerType::Default;
    assert_eq!(
        drive(3, None),
        vec![
            Action::Start(0),
            Action::Start(1),
            Action::Start(2),
            Action::Handle(h),
            Action::Respond(2),
            Action::Respond(1),
            Action::Respond(0),
            Action::Write,
            Action::Finish(2),
            Action::Finish(1),
            Action::Finish(0),
            Action::Done
        ]
    );
    // the second middleware answers its start with a response
    assert_eq!(
        drive(3, Some(1)),
        vec![
            Action::Start(0),
            Action::Start(1),
            Action::Respond(1),
            Action::Respond(0),
            Action::Write,
            Action::Finish(1),
            Action::Finish(0),
            Action::Done
        ]
    );
    assert_eq!(drive(0, None), vec![Action::Handle(h), Action::Write, Action::Done]);
    assert_eq!(
        drive(1, Some(0)),
        vec![Action::Start(0), Action::Respond(0), Action::Write, Action::Finish(0), Action::Done]
    );
}

#[test]
fn test_response_without_body() {
    let mut io = ProcessResponse::new(BodySource::Done);
    assert_eq!(io.poll_io(IoEvent::Enter), IoAction::Start);
    assert_eq!(io.poll_io(IoEvent::Started(Written::Done)), IoAction::Flush { drained: false });
    assert_eq!(io.poll_io(IoEvent::Flushed(Written::Pause)), IoAction::NotReady);
    assert_eq!(io.stage, IoStage::Paused);
    assert_eq!(io.poll_io(IoEvent::Enter), IoAction::Flush { drained: false });
    assert_eq!(io.poll_io(IoEvent::Flushed(Written::Done)), IoAction::Done);
    assert_eq!(io.stage, IoStage::Over);
    assert_eq!(io.poll_io(IoEvent::Enter), IoAction::Done);
}

#[test]
fn test_response_streaming_with_backpressure() {
    let mut io = ProcessResponse::new(BodySource::Stream);
    assert_eq!(io.poll_io(IoEvent::Enter), IoAction::Start);
    assert_eq!(io.poll_io(IoEvent::Started(Written::Done)), IoAction::Pull);
    assert_eq!(io.poll_io(IoEvent::Body(Pulled::Chunk)), IoAction::Write);
    assert_eq!(io.poll_io(IoEvent::Written(Written::Done)), IoAction::Pull);
    assert_eq!(io.poll_io(IoEvent::Body(Pulled::Chunk)), IoAction::Write);
    // the writer asks for a pause: nothing is pulled until it has flushed
    assert_eq!(io.poll_io(IoEvent::Written(Written::Pause)), IoAction::Flush { drained: false });
    assert_eq!(io.poll_io(IoEvent::Flushed(Written::Pause)), IoAction::NotReady);
    assert_eq!(io.poll_io(IoEvent::Enter), IoAction::Flush { drained: false });
    assert_eq!(io.poll_io(IoEvent::Flushed(Written::Done)), IoAction::Pull);
    assert_eq!(io.poll_io(IoEvent::Body(Pulled::NotReady)), IoAction::NotReady);
    assert_eq!(io.poll_io(IoEvent::Enter), IoAction::Pull);
    assert_eq!(io.poll_io(IoEvent::Body(Pulled::End)), IoAction::WriteEof);
    assert_eq!(io.poll_io(IoEvent::Written(Written::Done)), IoAction::Flush { drained: false });
    assert_eq!(io.poll_io(IoEvent::Flushed(Written::Done)), IoAction::Done);
}

#[test]
fn test_response_drain_and_disconnect() {
    let mut io = ProcessResponse::new(BodySource::Context);
    assert_eq!(io.poll_io(IoEvent::Enter), IoAction::Start);
    assert_eq!(io.poll_io(IoEvent::Started(Written::Pause)), IoAction::Flush { drained: false });
    assert_eq!(io.poll_io(IoEvent::Flushed(Written::Done)), IoAction::Pull);
    assert_eq!(io.poll_io(IoEvent::Body(Pulled::Drain)), IoAction::Flush { drained: true });
    assert_eq!(io.poll_io(IoEvent::Flushed(Written::Done)), IoAction::Pull);
    assert!(!io.drain);
    assert_eq!(io.poll_io(IoEvent::Body(Pulled::Chunk)), IoAction::Write);
    // the peer has gone away: the source is told and the writing is over
    assert_eq!(io.poll_io(IoEvent::Written(Written::Disconnected)), IoAction::Disconnected);
    assert_eq!(io.stage, IoStage::Over);
    assert_eq!(io.poll_io(IoEvent::Body(Pulled::Chunk)), IoAction::Done);

    let mut io = ProcessResponse::new(BodySource::Stream);
    assert_eq!(io.poll_io(IoEvent::Enter), IoAction::Start);
    assert_eq!(io.poll_io(IoEvent::Started(Written::Disconnected)), IoAction::Disconnected);
    let mut io = ProcessResponse::new(BodySource::Stream);
    let _ = io.poll_io(IoEvent::Enter);
    let _ = io.poll_io(IoEvent::Started(Written::Done));
    assert_eq!(io.poll_io(IoEvent::Body(Pulled::Failed)), IoAction::Disconnected);
    // an answer that the stage did not ask for changes nothing
    let mut io = ProcessResponse::new(BodySource::Stream);
    assert_eq!(io.poll_io(IoEvent::Flushed(Written::Done)), IoAction::NotReady);
    assert_eq!(io.stage, IoStage::Head);
}
