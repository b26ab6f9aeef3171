use actix_web::with::{
    Async, ExtractorConfig, FromRequest, ReplyItem, Waiting, With, With2, With3, WithAction,
    WithEvent, WithHandlerFut,
};

struct Name(String);

impl FromRequest<()> for Name {
    type Config = NameConfig;
}

#[derive(Default, PartialEq, Debug)]
struct NameConfig {
    limit: usize,
}

#[test]
fn test_extractor_config() {
    let mut cfg: ExtractorConfig<(), Name> = ExtractorConfig::default();
    assert_eq!(cfg.as_ref(), &NameConfig { limit: 0 });
    cfg.deref_mut().limit = 4;
    assert_eq!(cfg.deref().limit, 4);
}

#[test]
fn test_with_handlers() {
    let one = With::new(|n: Name| n.0.len(), ExtractorConfig::<(), Name>::default());
    assert_eq!(one.call(Name("abc".to_owned())), 3);
    assert_eq!(one.handle().arity, 1);

    let two = With2::new(
        |a: Name, b: Name| format!("{}-{}", a.0, b.0),
        ExtractorConfig::<(), Name>::default(),
        ExtractorConfig::<(), Name>::default(),
    );
    assert_eq!(two.call(Name("a".to_owned()), Name("b".to_owned())), "a-b");
    assert_eq!(two.handle().arity, 2);

    let three = With3::new(
        |a: Name, b: Name, c: Name| a.0.len() + b.0.len() + c.0.len(),
        ExtractorConfig::<(), Name>::default(),
        ExtractorConfig::<(), Name>::default(),
        ExtractorConfig::<(), Name>::default(),
    );
    assert_eq!(three.call(Name("a".to_owned()), Name("bb".to_owned()), Name("ccc".to_owned())), 6);
    let fut = three.handle();
    assert_eq!(fut.arity, 3);
    assert!(!fut.started && !fut.finished);
    assert_eq!(fut.waiting, Waiting::Poll);
}

#[test]
fn test_extraction_order() {
    // all three extractors are ready at once and the handler answers with a response
    let mut fut = WithHandlerFut::new(3);
    assert_eq!(fut.poll(WithEvent::Polled), WithAction::Extract(0));
    assert_eq!(fut.poll(WithEvent::Extracted(Async::Ready)), WithAction::Extract(1));
    assert_eq!(fut.poll(WithEvent::Extracted(Async::Ready)), WithAction::Extract(2));
    assert_eq!(fut.poll(WithEvent::Extracted(Async::Ready)), WithAction::Handle);
    assert_eq!(fut.poll(WithEvent::Handled(ReplyItem::Message)), WithAction::Return(Async::Ready));
    assert!(fut.finished);
    // a run that is over fails when polled
    assert_eq!(fut.poll(WithEvent::Polled), WithAction::Return(Async::Failed));
}

#[test]
fn test_extraction_waits() {
    let mut fut = WithHandlerFut::new(2);
    assert_eq!(fut.poll(WithEvent::Polled), WithAction::Extract(0));
    assert_eq!(fut.poll(WithEvent::Extracted(Async::NotReady)), WithAction::Return(Async::NotReady));
    assert_eq!(fut.poll(WithEvent::Polled), WithAction::PollExtract(0));
    assert_eq!(fut.poll(WithEvent::Extracted(Async::Ready)), WithAction::Extract(1));
    assert_eq!(fut.poll(WithEvent::Extracted(Async::NotReady)), WithAction::Return(Async::NotReady));
    assert_eq!(fut.poll(WithEvent::Polled), WithAction::PollExtract(1));
    assert_eq!(fut.poll(WithEvent::Extracted(Async::Ready)), WithAction::Handle);
    assert_eq!(fut.poll(WithEvent::Handled(ReplyItem::Future)), WithAction::PollResponse);
    assert_eq!(fut.poll(WithEvent::Responded(Async::NotReady)), WithAction::Return(Async::NotReady));
    assert!(!fut.finished);
    assert_eq!(fut.poll(WithEvent::Polled), WithAction::PollResponse);
    assert_eq!(fut.poll(WithEvent::Responded(Async::Ready)), WithAction::Return(Async::Ready));
    assert!(fut.finished);
}

#[test]
fn test_extraction_failures() {
    let mut fut = WithHandlerFut::new(1);
    assert_eq!(fut.poll(WithEvent::Polled), WithAction::Extract(0));
    assert_eq!(fut.poll(WithEvent::Extracted(Async::Failed)), WithAction::Return(Async::Failed));
    assert!(fut.finished);

    let mut fut = WithHandlerFut::new(1);
    assert_eq!(fut.poll(WithEvent::Polled), WithAction::Extract(0));
    assert_eq!(fut.poll(WithEvent::Extracted(Async::Ready)), WithAction::Handle);
    assert_eq!(fut.poll(WithEvent::Handled(ReplyItem::Failed)), WithAction::Return(Async::Failed));

    // an answer that nothing asked for
    let mut fut = WithHandlerFut::new(1);
    assert_eq!(fut.poll(WithEvent::Handled(ReplyItem::Message)), WithAction::Return(Async::Failed));
}
