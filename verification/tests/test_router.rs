use actix_web::error::UrlGenerationError;
use actix_web::httprequest::HttpRequest;
use actix_web::router::{PatternError, Resource, ResourceType, Router};
use actix_web::server::settings::ServerSettings;

fn request(path: &str) -> HttpRequest<()> {
    HttpRequest::new("GET", path)
}

#[test]
fn test_recognizer() {
    let routes = vec![
        (Resource::new("", "/name"), Some(0u8)),
        (Resource::new("", "/name/{val}"), Some(1)),
        (Resource::new("", "/name/{val}/index.html"), Some(2)),
        (Resource::new("", "/file/{file}.{ext}"), Some(3)),
        (Resource::new("", "/v{val}/{val2}/index.html"), Some(4)),
        (Resource::new("", "/v/{tail:.*}"), Some(5)),
        (Resource::new("", "{test}/index.html"), Some(6)),
    ];
    let (rec, _) = Router::new("", ServerSettings::default(), routes);

    let mut req = request("/name");
    assert_eq!(rec.recognize(&mut req), Some(0));
    assert!(req.match_info().is_empty());

    let mut req = request("/name/value");
    assert_eq!(rec.recognize(&mut req), Some(1));
    assert_eq!(req.match_info().get("val").unwrap(), "value");
    assert_eq!(req.match_info().get("val"), Some("value"));

    let mut req = request("/name/value2/index.html");
    assert_eq!(rec.recognize(&mut req), Some(2));
    assert_eq!(req.match_info().get("val").unwrap(), "value2");

    let mut req = request("/file/file.gz");
    assert_eq!(rec.recognize(&mut req), Some(3));
    assert_eq!(req.match_info().get("file").unwrap(), "file");
    assert_eq!(req.match_info().get("ext").unwrap(), "gz");

    let mut req = request("/vtest/ttt/index.html");
    assert_eq!(rec.recognize(&mut req), Some(4));
    assert_eq!(req.match_info().get("val").unwrap(), "test");
    assert_eq!(req.match_info().get("val2").unwrap(), "ttt");

    let mut req = request("/v/blah-blah/index.html");
    assert_eq!(rec.recognize(&mut req), Some(5));
    assert_eq!(req.match_info().get("tail").unwrap(), "blah-blah/index.html");

    let mut req = request("/bbb/index.html");
    assert_eq!(rec.recognize(&mut req), Some(6));
    assert_eq!(req.match_info().get("test").unwrap(), "bbb");
}

#[test]
fn test_recognizer_2() {
    let routes = vec![
        (Resource::new("", "/index.json"), Some(0u8)),
        (Resource::new("", "/{source}.json"), Some(1)),
    ];
    let (rec, _) = Router::new("", ServerSettings::default(), routes);

    let mut req = request("/index.json");
    assert_eq!(rec.recognize(&mut req), Some(0));

    let mut req = request("/test.json");
    assert_eq!(rec.recognize(&mut req), Some(1));
}

#[test]
fn test_recognizer_with_prefix() {
    let routes = vec![
        (Resource::new("", "/name"), Some(0u8)),
        (Resource::new("", "/name/{val}"), Some(1)),
    ];
    let (rec, _) = Router::new("/test", ServerSettings::default(), routes);

    let mut req = request("/name");
    assert!(rec.recognize(&mut req).is_none());

    let mut req = request("/test/name");
    assert_eq!(rec.recognize(&mut req), Some(0));

    let mut req = request("/test/name/value");
    assert_eq!(rec.recognize(&mut req), Some(1));
    assert_eq!(req.match_info().get("val").unwrap(), "value");
    assert_eq!(req.match_info().get("val"), Some("value"));

    // same patterns
    let routes = vec![
        (Resource::new("", "/name"), Some(0u8)),
        (Resource::new("", "/name/{val}"), Some(1)),
    ];
    let (rec, _) = Router::new("/test2", ServerSettings::default(), routes);

    let mut req = request("/name");
    assert!(rec.recognize(&mut req).is_none());
    let mut req = request("/test2/name");
    assert_eq!(rec.recognize(&mut req), Some(0));
    let mut req = request("/test2/name-test");
    assert!(rec.recognize(&mut req).is_none());
    let mut req = request("/test2/name/ttt");
    assert_eq!(rec.recognize(&mut req), Some(1));
    assert_eq!(req.match_info().get("val"), Some("ttt"));
}

#[test]
fn test_parse_static() {
    let re = Resource::new("test", "/");
    assert!(re.is_match("/"));
    assert!(!re.is_match("/a"));

    let re = Resource::new("test", "/name");
    assert!(re.is_match("/name"));
    assert!(!re.is_match("/name1"));
    assert!(!re.is_match("/name/"));
    assert!(!re.is_match("/name~"));

    let re = Resource::new("test", "/name/");
    assert!(re.is_match("/name/"));
    assert!(!re.is_match("/name"));
    assert!(!re.is_match("/name/gs"));

    let re = Resource::new("test", "/user/profile");
    assert!(re.is_match("/user/profile"));
    assert!(!re.is_match("/user/profile/profile"));
}

#[test]
fn test_parse_param() {
    let mut req: HttpRequest<()> = HttpRequest::default();

    let re = Resource::new("test", "/user/{id}");
    assert!(re.is_match("/user/profile"));
    assert!(re.is_match("/user/2345"));
    assert!(!re.is_match("/user/2345/"));
    assert!(!re.is_match("/user/2345/sdg"));

    req.match_info_mut().clear();
    assert!(re.match_with_params("/user/profile", req.match_info_mut()));
    assert_eq!(req.match_info().get("id").unwrap(), "profile");

    req.match_info_mut().clear();
    assert!(re.match_with_params("/user/1245125", req.match_info_mut()));
    assert_eq!(req.match_info().get("id").unwrap(), "1245125");

    let re = Resource::new("test", "/v{version}/resource/{id}");
    assert!(re.is_match("/v1/resource/320120"));
    assert!(!re.is_match("/v/resource/1"));
    assert!(!re.is_match("/resource"));

    req.match_info_mut().clear();
    assert!(re.match_with_params("/v151/resource/adahg32", req.match_info_mut()));
    assert_eq!(req.match_info().get("version").unwrap(), "151");
    assert_eq!(req.match_info().get("id").unwrap(), "adahg32");
}

#[test]
fn test_routes_with_and_without_params() {
    let routes = vec![
        (Resource::new("", "/name"), Some(0u8)),
        (Resource::new("", "/name/{val}"), Some(1)),
    ];
    let (rec, handlers) = Router::new("", ServerSettings::default(), routes);
    assert_eq!(handlers, vec![0, 1]);

    let mut req = request("/name");
    assert_eq!(rec.recognize(&mut req), Some(0));
    assert!(req.match_info().is_empty());
    assert_eq!(req.resource, Some(0));

    let mut req = request("/name/value");
    assert_eq!(rec.recognize(&mut req), Some(1));
    assert_eq!(req.match_info().len(), 1);
    assert_eq!(req.match_info().get("val"), Some("value"));

    let mut req = request("/other");
    assert_eq!(rec.recognize(&mut req), None);
    assert_eq!(req.resource, None);
    assert!(req.match_info().is_empty());
}

#[test]
fn test_percent_decoding_and_empty_path() {
    let routes = vec![
        (Resource::new("", "/"), Some(0u8)),
        (Resource::new("", "/a b/{x}"), Some(1)),
    ];
    let (rec, _) = Router::new("/app/", ServerSettings::default(), routes);
    assert_eq!(rec.prefix(), "/app");

    let mut req = request("/app");
    assert_eq!(rec.recognize(&mut req), Some(0));
    let mut req = request("/app/a%20b/%C3%A9t%c3%a9");
    assert_eq!(rec.recognize(&mut req), Some(1));
    assert_eq!(req.match_info().get("x"), Some("été"));
    // '%zz' is no escape and stays as it is
    let mut req = request("/app/a%20b/%zz");
    assert_eq!(rec.recognize(&mut req), Some(1));
    assert_eq!(req.match_info().get("x"), Some("%zz"));
    // what decodes to bytes that are no text matches nothing
    let mut req = request("/app/a%20b/%ff");
    assert_eq!(rec.recognize(&mut req), None);
    // shorter than the prefix
    let mut req = request("/ap");
    assert_eq!(rec.recognize(&mut req), None);
}

#[test]
fn test_parse_template() {
    let (re, elems, dynamic) = Resource::parse("/user/{id}/x.y", "/").unwrap();
    assert_eq!(re, "^/user/(?P<id>[^/]+)/x\\.y$");
    assert_eq!(elems.len(), 2);
    assert!(dynamic);

    let (re, elems, dynamic) = Resource::parse("/a.b/c", "/").unwrap();
    assert_eq!(re, "/a.b/c");
    assert!(elems.is_empty());
    assert!(!dynamic);

    let (re, _, _) = Resource::parse("{n: \\d+}-{m:x:y}", "").unwrap();
    assert_eq!(re, "^(?P<n>\\d+)\\-(?P<m>y)$");

    assert!(Resource::parse("/a/{b", "/").is_none());
    assert!(Resource::parse("/a/b}", "/").is_none());
    assert!(Resource::parse("/a/{b{c}}", "/").is_none());
}

#[test]
fn test_pattern_errors() {
    assert_eq!(Resource::try_new("x", "/a/{b").err(), Some(PatternError::UnmatchedBrace));
    assert_eq!(Resource::try_new("x", "/a/}").err(), Some(PatternError::UnmatchedBrace));
    assert_eq!(Resource::try_new("x", "/a/{b:(}").err(), Some(PatternError::InvalidRegex));
    assert_eq!(Resource::check("/a/{b:[}", "/"), Err(PatternError::InvalidRegex));
    let res = Resource::try_new("x", "/a/{b}").unwrap();
    assert_eq!(res.name(), "x");
    assert_eq!(res.pattern(), "/a/{b}");
    assert_eq!(res.rtype(), ResourceType::Normal);
    assert_eq!(Resource::try_external("y", "http://h/{b}").unwrap().rtype(), ResourceType::External);
    assert_eq!(Resource::unset().rtype(), ResourceType::Unset);
}

#[test]
fn test_unnamed_and_optional_groups() {
    // the group inside the pattern has no name and records nothing; the
    // names stay with their own groups
    let re = Resource::new("", "/{a:(x|y)z}/{b}");
    let mut req: HttpRequest<()> = HttpRequest::default();
    assert!(re.match_with_params("/xz/q", req.match_info_mut()));
    assert_eq!(req.match_info().len(), 2);
    assert_eq!(req.match_info().get("a"), Some("xz"));
    assert_eq!(req.match_info().get("b"), Some("q"));
}

#[test]
fn test_resource_path() {
    let routes = vec![
        (Resource::new("user", "/user/{id}/post/{n}"), Some(0u8)),
        (Resource::external("youtube", "https://youtube.com/watch/{video_id}"), None),
        (Resource::new("plain", "/about"), Some(1)),
    ];
    let (router, handlers) = Router::new("/app", ServerSettings::default(), routes);
    assert_eq!(handlers.len(), 2);
    assert_eq!(router.resource_path("user", &["7", "42", "extra"]), Ok("/app/user/7/post/42".to_owned()));
    assert_eq!(
        router.resource_path("youtube", &["oHg5SJYRHA0"]),
        Ok("https://youtube.com/watch/oHg5SJYRHA0".to_owned())
    );
    assert_eq!(router.resource_path("user", &["7"]), Err(UrlGenerationError::NotEnoughElements));
    assert_eq!(router.resource_path("nobody", &[]), Err(UrlGenerationError::ResourceNotFound));
    assert!(router.has_route("/about"));
    assert!(router.has_route("/user/1/post/2"));
    assert!(!router.has_route("/app/about"));
    assert!(!router.has_route(""));
    let twin = router.clone();
    assert_eq!(twin.prefix(), "/app");
    assert_eq!(twin.server_settings().host(), "localhost:8080");
}

#[test]
fn test_request_resource() {
    let routes = vec![
        (Resource::new("r1", "/index.json"), Some(0u8)),
        (Resource::new("r2", "/test.json"), Some(1)),
    ];
    let (router, _) = Router::new("", ServerSettings::default(), routes);

    let mut req = request("/index.json").with_state(std::rc::Rc::new(()), router.clone());
    assert_eq!(router.recognize(&mut req), Some(0));
    let resource = req.resource().unwrap();
    assert_eq!(resource.name(), "r1");

    let mut req = request("/test.json").with_state(std::rc::Rc::new(()), router.clone());
    assert_eq!(router.recognize(&mut req), Some(1));
    let resource = req.resource().unwrap();
    assert_eq!(resource.name(), "r2");

    // a request that is bound to no router has no resource
    assert!(request("/index.json").resource().is_none());
}

#[test]
fn test_one_space_after_colon() {
    // one space after the colon is passed over
    let parsed = Resource::parse("/{id: x}", "/").unwrap();
    assert_eq!(parsed.0, "^/(?P<id>x)$");
    assert!(parsed.2);
    // a second one belongs to the pattern
    let parsed = Resource::parse("/{id:  x}", "/").unwrap();
    assert_eq!(parsed.0, "^/(?P<id> x)$");
    // and so does a space that comes later
    let parsed = Resource::parse("/{id:a b}", "/").unwrap();
    assert_eq!(parsed.0, "^/(?P<id>a b)$");

    let re = Resource::new("test", "/{id:  \\d+}");
    assert!(re.is_match("/ 12"));
    assert!(!re.is_match("/12"));
    let re = Resource::new("test", "/{id: \\d+}");
    assert!(re.is_match("/12"));
    assert!(!re.is_match("/ 12"));
}
