use sfs::Action;
use sfs::ResolvedTarget;
use sfs::Server;
use sfs::error::SfsError;
use sfs::plan;
use sfs::plan_request;
use sfs::request::Request;
use sfs::resolve_target;

fn server() -> Server {
    Server::from_root(String::from("root"))
}

#[test]
fn plain_resource_resolves_under_root() {
    let s = server();
    assert_eq!(s.get_path("/sub").unwrap(), "root/sub");
    assert_eq!(s.get_path("/a/b.css").unwrap(), "root/a/b.css");
}

#[test]
fn root_resource_resolves_to_root_slash() {
    let s = server();
    assert_eq!(s.get_path("/").unwrap(), "root/");
    assert_eq!(s.get_path("").unwrap(), "root/");
}

#[test]
fn resource_without_leading_slash_resolves_too() {
    let s = server();
    assert_eq!(s.get_path("sub/x.txt").unwrap(), "root/sub/x.txt");
}

#[test]
fn escaping_dotdot_segments_are_rejected() {
    let s = server();
    assert!(s.get_path("/..").is_none());
    assert!(s.get_path("/../etc/passwd").is_none());
    assert!(s.get_path("..").is_none());
    assert!(s.get_path("/a/../../b").is_none());
    assert!(s.get_path("/a/../..").is_none());
    assert!(s.get_path("/./..").is_none());
    assert!(s.get_path("/a//../..").is_none());
}

#[test]
fn non_escaping_dotdot_segments_resolve() {
    let s = server();
    assert_eq!(s.get_path("/a/../b").unwrap(), "root/a/../b");
    assert_eq!(s.get_path("/a/..").unwrap(), "root/a/..");
    assert_eq!(s.get_path("/a/b/../../c").unwrap(), "root/a/b/../../c");
    assert_eq!(s.get_path("/a/./../b").unwrap(), "root/a/./../b");
}

#[test]
fn second_leading_slash_is_rejected() {
    let s = server();
    assert!(s.get_path("//etc/passwd").is_none());
}

#[test]
fn dots_inside_a_segment_are_allowed() {
    let s = server();
    assert_eq!(s.get_path("/a..b").unwrap(), "root/a..b");
    assert_eq!(s.get_path("/...").unwrap(), "root/...");
    assert_eq!(s.get_path("/v1.2.3/x").unwrap(), "root/v1.2.3/x");
}

#[test]
fn dot_and_empty_segments_do_not_add_depth() {
    let s = server();
    assert_eq!(s.get_path("/./a").unwrap(), "root/./a");
    assert!(s.get_path("/.//..").is_none());
}

#[test]
fn new_accepts_a_directory_root() {
    match Server::new(String::from("root"), true) {
        Ok(s) => assert_eq!(s.get_path("/x").unwrap(), "root/x"),
        Err(_) => panic!("a directory root must be accepted"),
    }
}

#[test]
fn new_rejects_a_non_directory_root() {
    match Server::new(String::from("root"), false) {
        Err(SfsError::InvalidDirectory) => {},
        _ => panic!("a non-directory root must be rejected"),
    }
}

#[test]
fn resolve_target_classifies() {
    assert!(matches!(resolve_target(None, false, false), ResolvedTarget::Missing));
    assert!(matches!(
        resolve_target(Some(String::from("root/x")), false, false),
        ResolvedTarget::Missing
    ));
    match resolve_target(Some(String::from("root/x")), true, false) {
        ResolvedTarget::File(p) => assert_eq!(p, "root/x"),
        _ => panic!("expected a file"),
    }
    match resolve_target(Some(String::from("root/sub")), true, true) {
        ResolvedTarget::Dir(p) => assert_eq!(p, "root/sub"),
        _ => panic!("expected a directory"),
    }
}

#[test]
fn missing_target_is_not_found() {
    let req = Request::from_bytes(b"GET /missing HTTP/1.1").unwrap();
    match plan(&req, &ResolvedTarget::Missing) {
        Action::Reply(s) => assert_eq!(s.code(), 404),
        _ => panic!("expected a plain status reply"),
    }
}

#[test]
fn directory_without_slash_redirects() {
    let req = Request::from_bytes(b"GET /sub HTTP/1.1").unwrap();
    match plan(&req, &ResolvedTarget::Dir(String::from("root/sub"))) {
        Action::Redirect(loc) => assert_eq!(loc, "/sub/"),
        _ => panic!("expected a redirect"),
    }
}

#[test]
fn directory_with_slash_serves_index() {
    let req = Request::from_bytes(b"GET /sub/ HTTP/1.1").unwrap();
    match plan(&req, &ResolvedTarget::Dir(String::from("root/sub/"))) {
        Action::Serve { path, include_body } => {
            assert_eq!(path, "root/sub/index.html");
            assert!(include_body);
        },
        _ => panic!("expected a file to serve"),
    }
}

#[test]
fn root_directory_serves_its_index() {
    let req = Request::from_bytes(b"GET / HTTP/1.1").unwrap();
    match plan(&req, &ResolvedTarget::Dir(String::from("root/"))) {
        Action::Serve { path, include_body } => {
            assert_eq!(path, "root/index.html");
            assert!(include_body);
        },
        _ => panic!("expected a file to serve"),
    }
}

#[test]
fn get_serves_file_with_body() {
    let req = Request::from_bytes(b"GET /a.txt HTTP/1.1").unwrap();
    match plan(&req, &ResolvedTarget::File(String::from("root/a.txt"))) {
        Action::Serve { path, include_body } => {
            assert_eq!(path, "root/a.txt");
            assert!(include_body);
        },
        _ => panic!("expected a file to serve"),
    }
}

#[test]
fn head_serves_file_without_body() {
    let req = Request::from_bytes(b"HEAD /a.txt HTTP/1.1").unwrap();
    match plan(&req, &ResolvedTarget::File(String::from("root/a.txt"))) {
        Action::Serve { path, include_body } => {
            assert_eq!(path, "root/a.txt");
            assert!(!include_body);
        },
        _ => panic!("expected a file to serve"),
    }
}

#[test]
fn post_is_method_not_allowed() {
    let req = Request::from_bytes(b"POST /index.html HTTP/1.1").unwrap();
    match plan(&req, &ResolvedTarget::File(String::from("root/index.html"))) {
        Action::Reply(s) => assert_eq!(s.code(), 405),
        _ => panic!("expected a plain status reply"),
    }
}

#[test]
fn other_methods_are_not_allowed_either() {
    for line in [&b"PUT / HTTP/1.1"[..], b"DELETE / HTTP/1.1", b"PATCH / HTTP/1.1", b"OPTIONS / HTTP/1.1"]
    {
        let req = Request::from_bytes(line).unwrap();
        match plan(&req, &ResolvedTarget::File(String::from("root/index.html"))) {
            Action::Reply(s) => assert_eq!(s.code(), 405),
            _ => panic!("expected a plain status reply"),
        }
    }
}

#[test]
fn unparsed_request_is_bad_request() {
    let parsed = Request::from_bytes(b"FOO / HTTP/1.1");
    assert!(parsed.is_none());
    match plan_request(&parsed, &ResolvedTarget::Missing) {
        Action::Reply(s) => assert_eq!(s.code(), 400),
        _ => panic!("expected a plain status reply"),
    }
}

#[test]
fn parsed_request_is_planned() {
    let parsed = Request::from_bytes(b"GET /missing HTTP/1.1");
    match plan_request(&parsed, &ResolvedTarget::Missing) {
        Action::Reply(s) => assert_eq!(s.code(), 404),
        _ => panic!("expected a plain status reply"),
    }
}

#[test]
fn full_pipeline_redirect() {
    let s = server();
    let req = Request::from_bytes(b"GET /sub HTTP/1.1\r\n").unwrap();
    let path = s.get_path(req.resource());
    let target = resolve_target(path, true, true);
    match plan_request(&Some(req), &target) {
        Action::Redirect(loc) => assert_eq!(loc, "/sub/"),
        _ => panic!("expected a redirect"),
    }
}
