use plate::handler::{target_is_readable, Router, RouterError};
use plate::request::{HTTPMethod, HTTPVersion};
use plate::strmap::StringMap;
use plate::{Request, Response};

fn handler_request(target: &str) -> Request {
    Request::new(HTTPMethod::GET, target.to_string(), HTTPVersion::HTTP11, StringMap::new(), None)
}

#[test]
fn query_string_lands_in_args() {
    let req = handler_request("/hello?age=25");
    assert_eq!(req.path, "/hello");
    assert_eq!(req.args.len(), 1);
    assert_eq!(req.args.get("age").map(|s| s.as_str()), Some("25"));
}

#[test]
fn target_without_query_keeps_path() {
    let req = handler_request("/hello");
    assert_eq!(req.path, "/hello");
    assert_eq!(req.args.len(), 0);
}

#[test]
fn query_parameters_in_order_and_replaced() {
    let req = handler_request("/p?a=1&b=2=3&a=4&c=");
    assert_eq!(req.path, "/p");
    assert_eq!(req.args.len(), 3);
    assert_eq!(req.args.get("a").map(|s| s.as_str()), Some("4"));
    assert_eq!(req.args.get("b").map(|s| s.as_str()), Some("2"));
    assert_eq!(req.args.get("c").map(|s| s.as_str()), Some(""));
    let (k, v) = req.args.entry(0);
    assert_eq!((k.as_str(), v.as_str()), ("a", "4"));
}

#[test]
fn only_first_question_mark_splits() {
    let req = handler_request("/p?x=a?b");
    assert_eq!(req.path, "/p");
    assert_eq!(req.args.get("x").map(|s| s.as_str()), Some("a?b"));
}

#[test]
fn readable_targets() {
    assert!(target_is_readable("/plain"));
    assert!(target_is_readable("/q?a=1&b=2"));
    assert!(!target_is_readable("/q?"));
    assert!(!target_is_readable("/q?a=1&b"));
    assert!(!target_is_readable("/q?a=1&&b=2"));
}

#[test]
fn handler_response_holds_body_and_status() {
    let r = Response::new("Hello world", 200);
    assert_eq!(r.body, "Hello world");
    assert_eq!(r.status_code, 200);
}

#[test]
fn router_starts_empty_with_public_dir() {
    let r: Router<u32> = Router::new();
    assert_eq!(r.static_dir(), "./public");
    assert!(matches!(r.look_up(&HTTPMethod::GET, "/"), Err(RouterError::NotFound)));
}

#[test]
fn registration_replaces_routes_of_method() {
    let mut r: Router<u32> = Router::new();
    r.regiser(HTTPMethod::GET, "/a", 1);
    r.regiser(HTTPMethod::POST, "/a", 2);
    assert!(matches!(r.look_up(&HTTPMethod::GET, "/a"), Ok(1)));
    assert!(matches!(r.look_up(&HTTPMethod::POST, "/a"), Ok(2)));
    r.regiser(HTTPMethod::GET, "/b", 3);
    assert!(matches!(r.look_up(&HTTPMethod::GET, "/b"), Ok(3)));
    assert!(matches!(r.look_up(&HTTPMethod::GET, "/a"), Err(RouterError::NotFound)));
    assert!(matches!(r.look_up(&HTTPMethod::POST, "/a"), Ok(2)));
    r.regiser(HTTPMethod::DELETE, "/a", 4);
    r.regiser(HTTPMethod::PUT, "/c", 5);
    assert!(matches!(r.look_up(&HTTPMethod::DELETE, "/a"), Ok(4)));
    assert!(matches!(r.look_up(&HTTPMethod::PUT, "/c"), Ok(5)));
    assert!(matches!(r.look_up(&HTTPMethod::PUT, "/a"), Err(RouterError::NotFound)));
    assert!(matches!(r.look_up(&HTTPMethod::POST, "/a"), Ok(2)));
}

fn greet(_r: &Request) -> Response {
    Response::new("hi", 201)
}

#[test]
fn function_handlers_can_be_routed() {
    let mut r: Router<fn(&Request) -> Response> = Router::new();
    r.regiser(HTTPMethod::GET, "/greet", greet);
    let h = match r.look_up(&HTTPMethod::GET, "/greet") {
        Ok(h) => h,
        Err(_) => panic!("not found"),
    };
    let resp = h(&handler_request("/greet"));
    assert_eq!(resp.status_code, 201);
}
