use actix_web::application::{is_under, App, Handling, HttpApplication, RegistrationError};
use actix_web::header::ContentEncoding;
use actix_web::httprequest::HttpRequest;
use actix_web::httpresponse::HttpResponse;
use actix_web::pipeline::HandlerType;
use actix_web::pred::Predicate;
use actix_web::resource::Route;
use actix_web::router::PatternError;

type Handler = fn() -> HttpResponse;
type TestApp<S> = HttpApplication<S, Handler, ()>;

const OK: Handler = HttpResponse::ok;
const NOT_FOUND: Handler = HttpResponse::not_found;
const NOT_ALLOWED: Handler = HttpResponse::method_not_allowed;

fn builder() -> App<(), Handler, ()> {
    App::new()
}

fn request(path: &str) -> HttpRequest<()> {
    HttpRequest::new("GET", path)
}

/// Runs the handler that the application chooses for the request.
fn run<S>(app: &TestApp<S>, req: HttpRequest<()>) -> HttpResponse {
    let mut req = app.prepare_request(req);
    match app.run(&mut req) {
        Handling::Route { resource, route } => {
            (app.inner.resources[resource].routes[route].handler.unwrap())()
        }
        Handling::Default { route } => (app.inner.default.routes[route].handler.unwrap())(),
        Handling::Handler(idx) => (app.inner.handlers[idx].1)(),
        Handling::NotFound => HttpResponse::not_found(),
    }
}

#[test]
fn test_default_resource() {
    let app: TestApp<()> = builder().resource("/test", |r| r.f(OK)).finish();

    let resp = run(&app, request("/test"));
    assert_eq!(resp.status(), 200);

    let resp = run(&app, request("/blah"));
    assert_eq!(resp.status(), 404);

    let app: TestApp<()> =
        builder().default_resource(|r| r.f(NOT_ALLOWED)).finish();
    let resp = run(&app, request("/blah"));
    assert_eq!(resp.status(), 405);
}

#[test]
fn test_unhandled_prefix() {
    let app: TestApp<()> =
        builder().prefix("/test").resource("/test", |r| r.f(OK)).finish();
    assert!(app.handle(HttpRequest::default()).is_err());
}

#[test]
fn test_state() {
    let app: TestApp<i32> =
        App::<i32, Handler, ()>::with_state(10).resource("/", |r| r.f(OK)).finish();
    assert_eq!(*app.state, 10);
    let resp = run(&app, HttpRequest::default());
    assert_eq!(resp.status(), 200);
}

#[test]
fn test_prefix() {
    let app: TestApp<()> =
        builder().prefix("/test").resource("/blah", |r| r.f(OK)).finish();
    let resp = app.handle(request("/test"));
    assert!(resp.is_ok());

    let resp = app.handle(request("/test/"));
    assert!(resp.is_ok());

    let resp = app.handle(request("/test/blah"));
    assert!(resp.is_ok());

    let resp = app.handle(request("/testing"));
    assert!(resp.is_err());
}

#[test]
fn test_handler() {
    let app: TestApp<()> = builder().handler("/test", OK).finish();

    let resp = run(&app, request("/test"));
    assert_eq!(resp.status(), 200);

    let resp = run(&app, request("/test/"));
    assert_eq!(resp.status(), 200);

    let resp = run(&app, request("/test/app"));
    assert_eq!(resp.status(), 200);

    let resp = run(&app, request("/testapp"));
    assert_eq!(resp.status(), 404);

    let resp = run(&app, request("/blah"));
    assert_eq!(resp.status(), 404);
}

#[test]
fn test_handler_prefix() {
    let app: TestApp<()> =
        builder().prefix("/app").handler("/test", OK).finish();

    let resp = run(&app, request("/test"));
    assert_eq!(resp.status(), 404);

    let resp = run(&app, request("/app/test"));
    assert_eq!(resp.status(), 200);

    let resp = run(&app, request("/app/test/"));
    assert_eq!(resp.status(), 200);

    let resp = run(&app, request("/app/test/app"));
    assert_eq!(resp.status(), 200);

    let resp = run(&app, request("/app/testapp"));
    assert_eq!(resp.status(), 404);

    let resp = run(&app, request("/app/blah"));
    assert_eq!(resp.status(), 404);
}

#[test]
fn test_prefix_then_router() {
    let app: TestApp<()> =
        builder().prefix("/test").resource("/blah", |r| r.f(OK)).finish();

    // the application takes `/test`, the router finds nothing
    let (mut req, pipeline) = match app.handle(request("/test")) {
        Ok(task) => task,
        Err(_) => panic!("not accepted"),
    };
    assert_eq!(pipeline.htype, HandlerType::Default);
    assert_eq!(app.router.recognize(&mut req), None);

    // `/testing` is not under the prefix
    assert!(app.handle(request("/testing")).is_err());

    // `/test/blah` is the first pattern
    let (req, pipeline) = match app.handle(request("/test/blah")) {
        Ok(task) => task,
        Err(_) => panic!("not accepted"),
    };
    assert_eq!(pipeline.htype, HandlerType::Normal(0));
    assert_eq!(req.resource, Some(0));
}

#[test]
fn test_default_resource_status() {
    let app: TestApp<()> =
        builder().default_resource(|r| r.f(NOT_ALLOWED)).finish();
    let resp = run(&app, request("/unmatched"));
    assert_eq!(resp.status(), 405);
}

#[test]
fn test_tail_parameter() {
    let app: TestApp<()> = builder()
        .prefix("/app")
        .handler(" /static/ ", OK)
        .handler("/st", NOT_FOUND)
        .finish();
    assert_eq!(app.inner.handlers[0].0, "/static");

    let mut req = app.prepare_request(request("/app/static/css/é.css"));
    assert_eq!(app.get_handler(&mut req), HandlerType::Handler(0));
    assert_eq!(req.match_info().get("tail"), Some("css/é.css"));

    let mut req = app.prepare_request(request("/app/static"));
    assert_eq!(app.get_handler(&mut req), HandlerType::Handler(0));
    assert_eq!(req.match_info().get("tail"), Some(""));

    let mut req = app.prepare_request(request("/app/static/"));
    assert_eq!(app.get_handler(&mut req), HandlerType::Handler(0));
    assert_eq!(req.match_info().get("tail"), Some(""));

    let mut req = app.prepare_request(request("/app/st/x"));
    assert_eq!(app.get_handler(&mut req), HandlerType::Handler(1));
    assert_eq!(req.match_info().get("tail"), Some("x"));

    let mut req = app.prepare_request(request("/app/statics"));
    assert_eq!(app.get_handler(&mut req), HandlerType::Default);
    assert!(req.match_info().is_empty());
    assert_eq!(app.find_mount("/app/static/x"), Some((0, 11)));
    assert_eq!(app.find_mount("/ap"), None);
}

#[test]
fn test_prefix_match_rule() {
    assert!(is_under(b"/test", b"/test"));
    assert!(is_under(b"/test/", b"/test"));
    assert!(is_under(b"/test/x", b"/test"));
    assert!(!is_under(b"/testing", b"/test"));
    assert!(!is_under(b"/tes", b"/test"));
    assert!(is_under(b"/anything", b""));
    assert!(!is_under(b"anything", b""));
    assert!(is_under(b"", b""));
}

#[test]
fn test_builder() {
    let app: App<(), Handler, u8> = App::new();
    let app = app.prefix("api");
    assert_eq!(app.parts.as_ref().unwrap().prefix, "/api");
    let app = app.prefix("/v1/");
    assert_eq!(app.parts.as_ref().unwrap().prefix, "/v1/");
    let app = app
        .default_encoding(ContentEncoding::Gzip)
        .middleware(1)
        .middleware(2)
        .configure(|app| app.middleware(3))
        .external_resource("youtube", "https://youtube.com/watch/{video_id}");
    assert!(app.is_external("youtube"));
    assert!(!app.is_external("vimeo"));
    let app = match app.try_external_resource("youtube", "https://y/{id}") {
        Err((app, err)) => {
            assert_eq!(err, RegistrationError::Duplicate);
            app
        }
        Ok(_) => panic!("registered twice"),
    };
    let app = match app.try_external_resource("bad", "https://y/{id") {
        Err((app, err)) => {
            assert_eq!(err, RegistrationError::Pattern(PatternError::UnmatchedBrace));
            app
        }
        Ok(_) => panic!("took a bad template"),
    };
    let app = match app.try_resource("/x/{y:(}", |r| r.f(OK)) {
        Err((app, err)) => {
            assert_eq!(err, PatternError::InvalidRegex);
            app
        }
        Ok(_) => panic!("took a bad template"),
    };
    let mut app = match app.try_resource("/user/{id}", |r| {
        r.name("user");
        r.method("GET", OK);
        let mut route = Route::new();
        route.filter(Predicate::method("POST")).filter(Predicate::has_header("x-token"));
        route.h(NOT_ALLOWED);
        r.route(route);
    }) {
        Ok(app) => app,
        Err(_) => panic!("refused a good template"),
    };
    let built = app.finish();
    assert!(app.parts.is_none());
    assert!(app.next().is_none());
    assert_eq!(built.prefix, "/v1");
    assert_eq!(built.middlewares, vec![1, 2, 3]);
    assert_eq!(built.as_ref().encoding(), ContentEncoding::Gzip);
    assert_eq!(built.router.resource_path("user", &["7"]), Ok("/v1/user/7".to_owned()));
    assert_eq!(
        built.router.resource_path("youtube", &["oHg5SJYRHA0"]),
        Ok("https://youtube.com/watch/oHg5SJYRHA0".to_owned())
    );

    // routes are chosen by their predicates, the first that fits
    let mut req = built.prepare_request(HttpRequest::new("GET", "/v1/user/1"));
    assert_eq!(built.run(&mut req), Handling::Route { resource: 0, route: 0 });
    let mut req = built.prepare_request(HttpRequest::new("POST", "/v1/user/1"));
    assert_eq!(built.run(&mut req), Handling::NotFound);
    let mut req = built.prepare_request(HttpRequest::new("POST", "/v1/user/1"));
    req.headers_mut().append("x-token", "1");
    assert_eq!(built.run(&mut req), Handling::Route { resource: 0, route: 1 });
    assert_eq!(req.match_info().get("id"), Some("1"));
}
