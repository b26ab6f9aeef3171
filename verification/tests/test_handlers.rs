use actix_web::application::{App, Handling, HttpApplication};
use actix_web::httprequest::HttpRequest;
use actix_web::httpresponse::{Body, HttpResponse};
use actix_web::with::{
    Async, ExtractorConfig, FromRequest, ReplyItem, With, With2, With3, WithAction, WithEvent,
};

/// A request as a client sends it: the path, and what follows the
/// question mark.
struct Sent {
    req: HttpRequest<()>,
    query: String,
}

fn get(uri: &str) -> Sent {
    let (path, query) = match uri.split_once('?') {
        Some((path, query)) => (path, query),
        None => (uri, ""),
    };
    Sent { req: HttpRequest::new("GET", path), query: query.to_owned() }
}

struct PParam {
    username: String,
}

#[derive(Default)]
struct NoConfig;

/// The parameter `username` of the path.
struct Path(PParam);

impl FromRequest<()> for Path {
    type Config = NoConfig;
}

/// The parameter `username` of the query.
struct Query(PParam);

impl FromRequest<()> for Query {
    type Config = NoConfig;
}

fn from_path(req: &HttpRequest<()>) -> Option<Path> {
    let username = req.match_info().get("username")?.to_owned();
    Some(Path(PParam { username }))
}

fn from_query(query: &str) -> Option<Query> {
    let username = query
        .split('&')
        .filter_map(|pair| pair.split_once('='))
        .find(|pair| pair.0 == "username")?
        .1
        .to_owned();
    Some(Query(PParam { username }))
}

fn text(status: u16, body: String) -> HttpResponse {
    let mut resp = HttpResponse::new(status);
    resp.body = Body::Binary(body.into_bytes());
    resp
}

fn body(resp: &HttpResponse) -> &[u8] {
    match &resp.body {
        Body::Binary(bytes) => bytes,
        _ => b"",
    }
}

/// Which of the handlers of the tests a route has.
#[derive(Clone, Copy)]
enum Kind {
    Path,
    Query,
    PathAndQuery,
    RequestPathAndQuery,
    Plain,
}

fn server(pattern: &str, kind: Kind) -> HttpApplication<(), Kind, ()> {
    App::new().resource(pattern, move |r| r.f(kind)).finish()
}

/// Runs the handler with one extractor: the extractor, then the handler;
/// an extractor that fails makes a bad request.
fn run_with<T: FromRequest<()>, F: Fn(T) -> String>(
    handler: &With<T, (), F, String>,
    item: Option<T>,
) -> HttpResponse {
    let mut run = handler.handle();
    assert_eq!(run.poll(WithEvent::Polled), WithAction::Extract(0));
    let item = match item {
        Some(item) => item,
        None => {
            assert_eq!(
                run.poll(WithEvent::Extracted(Async::Failed)),
                WithAction::Return(Async::Failed)
            );
            return HttpResponse::new(400);
        }
    };
    assert_eq!(run.poll(WithEvent::Extracted(Async::Ready)), WithAction::Handle);
    let answer = handler.call(item);
    assert_eq!(run.poll(WithEvent::Handled(ReplyItem::Message)), WithAction::Return(Async::Ready));
    text(200, answer)
}

fn execute(app: &HttpApplication<(), Kind, ()>, sent: Sent) -> HttpResponse {
    let mut req = app.prepare_request(sent.req);
    let kind = match app.run(&mut req) {
        Handling::Route { resource, route } => {
            app.inner.resources[resource].routes[route].handler.unwrap()
        }
        _ => return HttpResponse::not_found(),
    };
    match kind {
        Kind::Plain => text(200, "success".to_owned()),
        Kind::Path => {
            let handler = With::new(
                |p: Path| format!("Welcome {}!", p.0.username),
                ExtractorConfig::default(),
            );
            run_with(&handler, from_path(&req))
        }
        Kind::Query => {
            let handler = With::new(
                |p: Query| format!("Welcome {}!", p.0.username),
                ExtractorConfig::default(),
            );
            run_with(&handler, from_query(&sent.query))
        }
        Kind::PathAndQuery => {
            let handler = With2::new(
                |p: Path, q: Query| format!("Welcome {} - {}!", p.0.username, q.0.username),
                ExtractorConfig::default(),
                ExtractorConfig::default(),
            );
            let mut run = handler.handle();
            assert_eq!(run.poll(WithEvent::Polled), WithAction::Extract(0));
            let first = from_path(&req).unwrap();
            assert_eq!(run.poll(WithEvent::Extracted(Async::Ready)), WithAction::Extract(1));
            let second = match from_query(&sent.query) {
                Some(second) => second,
                None => {
                    let _ = run.poll(WithEvent::Extracted(Async::Failed));
                    return HttpResponse::new(400);
                }
            };
            assert_eq!(run.poll(WithEvent::Extracted(Async::Ready)), WithAction::Handle);
            let answer = handler.call(first, second);
            let _ = run.poll(WithEvent::Handled(ReplyItem::Message));
            text(200, answer)
        }
        Kind::RequestPathAndQuery => {
            let handler = With3::new(
                |_: Whole, p: Path, q: Query| {
                    format!("Welcome {} - {}!", p.0.username, q.0.username)
                },
                ExtractorConfig::default(),
                ExtractorConfig::default(),
                ExtractorConfig::default(),
            );
            let mut run = handler.handle();
            assert_eq!(run.poll(WithEvent::Polled), WithAction::Extract(0));
            assert_eq!(run.poll(WithEvent::Extracted(Async::Ready)), WithAction::Extract(1));
            let second = from_path(&req).unwrap();
            assert_eq!(run.poll(WithEvent::Extracted(Async::Ready)), WithAction::Extract(2));
            let third = match from_query(&sent.query) {
                Some(third) => third,
                None => {
                    let _ = run.poll(WithEvent::Extracted(Async::Failed));
                    return HttpResponse::new(400);
                }
            };
            assert_eq!(run.poll(WithEvent::Extracted(Async::Ready)), WithAction::Handle);
            let answer = handler.call(Whole, second, third);
            let _ = run.poll(WithEvent::Handled(ReplyItem::Message));
            text(200, answer)
        }
    }
}

/// The request itself, as an argument of a handler.
struct Whole;

impl FromRequest<()> for Whole {
    type Config = NoConfig;
}

#[test]
fn test_path_extractor() {
    let srv = server("/{username}/index.html", Kind::Path);

    let response = execute(&srv, get("/test/index.html"));
    assert_eq!(response.status(), 200);
    assert_eq!(body(&response), b"Welcome test!");
}

#[test]
fn test_query_extractor() {
    let srv = server("/index.html", Kind::Query);

    let response = execute(&srv, get("/index.html?username=test"));
    assert_eq!(response.status(), 200);
    assert_eq!(body(&response), b"Welcome test!");

    let response = execute(&srv, get("/index.html"));
    assert_eq!(response.status(), 400);
}

#[test]
fn test_path_and_query_extractor() {
    let srv = server("/{username}/index.html", Kind::PathAndQuery);

    let response = execute(&srv, get("/test1/index.html?username=test2"));
    assert_eq!(response.status(), 200);
    assert_eq!(body(&response), b"Welcome test1 - test2!");

    let response = execute(&srv, get("/test1/index.html"));
    assert_eq!(response.status(), 400);
}

#[test]
fn test_path_and_query_extractor2() {
    let srv = server("/{username}/index.html", Kind::RequestPathAndQuery);

    let response = execute(&srv, get("/test1/index.html?username=test2"));
    assert_eq!(response.status(), 200);
    assert_eq!(body(&response), b"Welcome test1 - test2!");

    let response = execute(&srv, get("/test1/index.html"));
    assert_eq!(response.status(), 400);
}

#[test]
fn test_non_ascii_route() {
    let srv = server("/中文/index.html", Kind::Plain);

    let response = execute(&srv, get("/中文/index.html"));
    assert_eq!(response.status(), 200);
    assert_eq!(body(&response), b"success");

    // as a client sends it
    let response = execute(&srv, get("/%E4%B8%AD%E6%96%87/index.html"));
    assert_eq!(response.status(), 200);
    assert_eq!(body(&response), b"success");
}
