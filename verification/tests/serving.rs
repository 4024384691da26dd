use plate::request::{HTTPMethod, RequestError};
use plate::server::{
    content_type_for, forbidden, is_within_root, not_found, plain_text, static_check, static_file_of, Plan,
    StaticCheck,
};
use plate::{Request, Response, Server};

fn hello(_r: &Request) -> Response {
    Response::new("Hello world", 200)
}

#[test]
fn new_server_has_name_and_no_routes() {
    let s: Server<u8> = Server::new("plate");
    assert_eq!(s.name(), "plate");
    assert_eq!(s.static_dir(), "./public");
    assert!(s.look_up(&HTTPMethod::GET, "/hello").is_err());
}

#[test]
fn get_registers_a_get_route() {
    let mut s: Server<fn(&Request) -> Response> = Server::new("fortune");
    s.get("/hello", hello);
    let h = match s.look_up(&HTTPMethod::GET, "/hello") {
        Ok(h) => h,
        Err(_) => panic!("route missing"),
    };
    assert_eq!(h(&Request::new(HTTPMethod::GET, "/hello".to_string(), plate::request::HTTPVersion::HTTP11, plate::strmap::StringMap::new(), None)).body, "Hello world");
    assert!(s.look_up(&HTTPMethod::POST, "/hello").is_err());
}

#[test]
fn plan_calls_registered_handler() {
    let mut s: Server<u8> = Server::new("plate");
    s.get("/hello", 9);
    match s.plan("GET /hello?age=25 HTTP/1.1\r\nHost: x\r\n\r\n".to_string()) {
        Plan::Handle(h, req) => {
            assert_eq!(h, 9);
            assert_eq!(req.path, "/hello");
            assert_eq!(req.args.get("age").map(|v| v.as_str()), Some("25"));
            assert_eq!(req.headers.get("Host").map(|v| v.as_str()), Some(" x"));
        }
        _ => panic!("expected a handler"),
    }
}

#[test]
fn plan_falls_back_to_static_files() {
    let mut s: Server<u8> = Server::new("plate");
    s.get("/hello", 9);
    match s.plan("POST /hello HTTP/1.1\r\n\r\n".to_string()) {
        Plan::Static(req, file) => {
            assert_eq!(req.method, HTTPMethod::POST);
            assert_eq!(file, "hello");
        }
        _ => panic!("expected a static file"),
    }
    match s.plan("GET / HTTP/1.1\r\n\r\n".to_string()) {
        Plan::Static(_, file) => assert_eq!(file, "index.html"),
        _ => panic!("expected a static file"),
    }
}

#[test]
fn plan_refuses_and_rejects() {
    let s: Server<u8> = Server::new("plate");
    assert!(matches!(s.plan("PATCH / HTTP/1.1\r\n\r\n".to_string()), Plan::Refused(RequestError::HTTPMethodError)));
    assert!(matches!(s.plan("GET / HTTP/1.1\r\n".to_string()), Plan::Static(_, _)));
    assert!(matches!(s.plan("GET /".to_string()), Plan::Unreadable));
    assert!(matches!(s.plan("GET /x?flag HTTP/1.1\r\n\r\n".to_string()), Plan::Unreadable));
}

#[test]
fn static_file_names() {
    assert_eq!(static_file_of("/"), "index.html");
    assert_eq!(static_file_of("/style.css"), "style.css");
    assert_eq!(static_file_of("///a/b.js"), "a/b.js");
    assert_eq!(static_file_of("//"), "");
}

#[test]
fn files_inside_root_only() {
    assert!(is_within_root("/srv/public", "/srv/public/index.html"));
    assert!(is_within_root("/srv/public", "/srv/public"));
    assert!(is_within_root("/srv/public/", "/srv/public//a"));
    assert!(is_within_root("/", "/etc/passwd"));
    assert!(!is_within_root("/srv/public", "/srv/publicity/a"));
    assert!(!is_within_root("/srv/public", "/srv/secret.txt"));
    assert!(!is_within_root("/srv/public", "srv/public/a"));
}

#[test]
fn content_types_by_extension() {
    assert_eq!(content_type_for("/srv/public/index.html"), Some("text/html"));
    assert_eq!(content_type_for("/srv/public/a.css"), Some("text/css"));
    assert_eq!(content_type_for("/srv/public/a.js"), Some("text/javascript"));
    assert_eq!(content_type_for("/srv/public/a.txt"), Some("text/plain"));
    assert_eq!(content_type_for("/srv/public/a.png"), Some("application/octet-stream"));
    assert_eq!(content_type_for("/srv/my.site/a.html"), Some("text/html"));
    assert_eq!(content_type_for("/srv/public/app.min.js"), Some("text/javascript"));
    assert_eq!(content_type_for("/srv/public/archive.tar.gz"), Some("application/octet-stream"));
    assert_eq!(content_type_for("index.html"), Some("text/html"));
    assert_eq!(content_type_for("/srv/public/README"), None);
    assert_eq!(content_type_for("/srv/my.site/README"), Some("application/octet-stream"));
}

#[test]
fn refusal_answers() {
    let r = not_found();
    assert_eq!((r.body.as_str(), r.status_code), ("Not Found", 404));
    let r = forbidden();
    assert_eq!((r.body.as_str(), r.status_code), ("Permission Error", 403));
    assert_eq!(plain_text(), "text/plain");
}

#[test]
fn static_checks() {
    use_static_check();
}

fn use_static_check() {
    use_case(None, Some("/srv/public/a"), StaticCheck::NotFound);
    use_case(Some("/srv/public"), None, StaticCheck::NotFound);
    use_case(Some("/srv/public"), Some("/srv/public/a"), StaticCheck::Allowed);
    use_case(Some("/srv/public"), Some("/etc/passwd"), StaticCheck::Forbidden);
}

fn use_case(root: Option<&str>, file: Option<&str>, expected: StaticCheck) {
    assert_eq!(static_check(root, file), expected);
}
