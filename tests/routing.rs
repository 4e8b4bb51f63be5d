use std::sync::atomic::{AtomicUsize, Ordering};
use std::sync::Arc;
use std::time::{Duration, Instant};

use jung_http::path::{build_paths, is_parameterized_path, split_path, HTTPPath, MatchedPath};
use jung_http::request::{build_request, HTTPContext, HTTPMethod};
use jung_http::response::HttpResponse;
use jung_http::route::{
    final_response, Pipeline, PipelineStep, PostRequestMiddleware, PostRequestMiddlewareResult,
    PreRequestMiddleware, PreRequestMiddlewareResult, RequestHandler, RouteMapping, Router,
    HTTPRequest,
};
use jung_http::server::Server;

enum Handler {
    Text(&'static str, Arc<AtomicUsize>),
    Echo,
    Sleepy(Arc<AtomicUsize>),
}

impl RequestHandler for Handler {
    fn call(&self, request: &HTTPRequest) -> HttpResponse {
        let mut response = HttpResponse::new();
        match self {
            Handler::Text(body, calls) => {
                calls.fetch_add(1, Ordering::SeqCst);
                response.set_body(body);
            }
            Handler::Echo => match &request.context.body {
                Some(value) => response.set_body(value),
                None => response.set_body("Unknown"),
            },
            Handler::Sleepy(done) => {
                let start = Instant::now();
                while start.elapsed() < Duration::from_millis(10) {
                    std::hint::spin_loop();
                }
                done.fetch_add(1, Ordering::SeqCst);
                response.set_body("Jung jung");
            }
        }
        response
    }
}

enum Pre {
    Pass,
    Stop(&'static str),
}

impl PreRequestMiddleware for Pre {
    fn handle(&self, _request: &HTTPRequest) -> PreRequestMiddlewareResult {
        match self {
            Pre::Pass => PreRequestMiddlewareResult::Next,
            Pre::Stop(body) => {
                let mut r = HttpResponse::new();
                r.set_status(401);
                r.set_body(body);
                PreRequestMiddlewareResult::End(r)
            }
        }
    }
}

enum Post {
    Tag(&'static str),
    Finish(&'static str),
}

impl PostRequestMiddleware for Post {
    fn handle(&self, _request: &HTTPRequest, response: &HttpResponse) -> PostRequestMiddlewareResult {
        let mut r = HttpResponse::new();
        let old = response.body().cloned().unwrap_or_default();
        match self {
            Post::Tag(t) => {
                r.set_body(&format!("{}{}", old, t));
                PostRequestMiddlewareResult::Next(r)
            }
            Post::Finish(t) => {
                r.set_body(&format!("{}{}", old, t));
                PostRequestMiddlewareResult::End(r)
            }
        }
    }
}

type TestRouter = Router<Handler, Pre, Post>;

fn request(method: &str, target: &str, body: &str) -> HTTPContext {
    build_request(&format!("{} {} HTTP/1.1\r\nHost: test\r\n\r\n", method, target), body).unwrap()
}

fn counter() -> Arc<AtomicUsize> {
    Arc::new(AtomicUsize::new(0))
}

#[test]
fn trailing_slash_matches_same_route() {
    let m: RouteMapping<Handler, Pre, Post> = RouteMapping::new(Some(HTTPMethod::GET), "/a/b", Handler::Echo);
    assert!(m.match_full("/a/b", &HTTPMethod::GET));
    assert!(m.match_full("/a/b/", &HTTPMethod::GET));
    assert!(!m.match_full("/a/b/c", &HTTPMethod::GET));
    assert!(!m.match_full("/a", &HTTPMethod::GET));
    assert!(!m.match_full("/a/b", &HTTPMethod::POST));
}

#[test]
fn parameter_matches_one_segment() {
    let m: RouteMapping<Handler, Pre, Post> = RouteMapping::new(None, "/users/:id", Handler::Echo);
    assert!(m.match_path("/users/42"));
    assert!(m.match_path("/users/abc"));
    assert!(!m.match_path("/users"));
    assert!(!m.match_path("/users/"));
    assert!(!m.match_path("/users/42/extra"));
    assert!(m.match_full("/users/42", &HTTPMethod::DELETE));
}

#[test]
fn path_segments_and_patterns() {
    assert_eq!(split_path("/a//b"), vec!["/", "a", "/", "b", "/"]);
    assert_eq!(split_path("/"), vec!["/", "/"]);
    assert_eq!(split_path("x/ /"), vec!["x", "/", "/"]);
    assert!(is_parameterized_path(":id"));
    assert!(!is_parameterized_path("id:"));
    let paths = build_paths("/users/:id");
    assert_eq!(paths.len(), 4);
    assert!(matches!(paths[2], HTTPPath::Parameterized(ref s) if s == ":id"));
    match paths[2].match_segment("42") {
        Some(MatchedPath::Parameterized { key, value }) => {
            assert_eq!(key, ":id");
            assert_eq!(value, "42");
        }
        _ => panic!("parameter did not match"),
    }
    assert!(paths[2].match_segment("/").is_none());
    assert!(paths[2].match_segment("").is_none());
    assert!(paths[2].match_segment("  ").is_none());
    assert!(matches!(paths[1].match_segment("users"), Some(MatchedPath::Plain)));
    assert!(paths[1].match_segment("user").is_none());
}

#[test]
fn pre_hook_end_skips_handler() {
    let calls = counter();
    let mut router: TestRouter = Router::new();
    router.route(HTTPMethod::GET, "/secret", Handler::Text("data", calls.clone()));
    router.before("/secret", Pre::Pass);
    router.before("/secret", Pre::Stop("denied"));
    router.before("/secret", Pre::Stop("never"));
    assert_eq!(router.len(), 1);
    let r = router.handle(request("GET", "/secret", ""));
    assert_eq!(calls.load(Ordering::SeqCst), 0);
    assert_eq!(r.status(), 401);
    assert_eq!(r.body().map(|b| b.as_str()), Some("denied"));
}

#[test]
fn post_hook_end_is_final() {
    let calls = counter();
    let mut router: TestRouter = Router::new();
    router.route(HTTPMethod::GET, "/", Handler::Text("x", calls.clone()));
    router.after("/", Post::Tag("1"));
    router.after("/", Post::Finish("2"));
    router.after("/", Post::Tag("3"));
    let r = router.handle(request("GET", "/", ""));
    assert_eq!(calls.load(Ordering::SeqCst), 1);
    assert_eq!(r.body().map(|b| b.as_str()), Some("x12"));
}

#[test]
fn unmatched_request_is_not_found() {
    let mut router: TestRouter = Router::new();
    router.route(HTTPMethod::GET, "/", Handler::Echo);
    let r = router.handle(request("GET", "/missing", ""));
    assert_eq!(r.status(), 404);
    assert!(r.body().is_none());
    assert_eq!(r.to_wire(), "HTTP/1.1 404 Not Found\r\nContent-Length: 0\r\n\r\n");
    let r = router.handle(request("POST", "/", ""));
    assert_eq!(r.status(), 404);
}

#[test]
fn get_root_says_jung() {
    let mut router: TestRouter = Router::default();
    router.route(HTTPMethod::GET, "/", Handler::Text("Jung jung", counter()));
    let r = router.handle(request("GET", "/", ""));
    assert_eq!(r.status(), 200);
    assert_eq!(r.body().map(|b| b.as_str()), Some("Jung jung"));
    assert_eq!(r.to_wire(), "HTTP/1.1 200 OK\r\nContent-Length: 9\r\n\r\nJung jung");
}

#[test]
fn post_echo_returns_body_or_unknown() {
    let mut router: TestRouter = Router::new();
    router.route(HTTPMethod::POST, "/echo", Handler::Echo);
    let r = router.handle(request("POST", "/echo", "hi"));
    assert_eq!(r.body().map(|b| b.as_str()), Some("hi"));
    let r = router.handle(request("POST", "/echo", ""));
    assert_eq!(r.body().map(|b| b.as_str()), Some("Unknown"));
}

#[test]
fn thread_pool_runs_ten_sleeping_requests() {
    let done = counter();
    let mut router: TestRouter = Router::new();
    router.route(HTTPMethod::GET, "/", Handler::Sleepy(done.clone()));
    let router = Arc::new(router);
    let pool = threadpool::ThreadPool::new(4);
    let ok = counter();
    let start = Instant::now();
    for _ in 0..10 {
        let router = router.clone();
        let ok = ok.clone();
        pool.execute(move || {
            let r = router.handle(request("GET", "/", ""));
            if r.status() == 200 {
                ok.fetch_add(1, Ordering::SeqCst);
            }
        });
    }
    pool.join();
    let elapsed = start.elapsed();
    assert_eq!(done.load(Ordering::SeqCst), 10);
    assert_eq!(ok.load(Ordering::SeqCst), 10);
    assert!(elapsed >= Duration::from_millis(30));
}

#[test]
fn last_matching_mapping_wins() {
    let mut router: TestRouter = Router::new();
    router.route(HTTPMethod::GET, "/x", Handler::Text("first", counter()));
    router.route(HTTPMethod::GET, "/x/", Handler::Text("second", counter()));
    router.route(HTTPMethod::POST, "/x", Handler::Text("other", counter()));
    assert_eq!(router.get_handlers("/x", &HTTPMethod::GET), vec![0, 1]);
    let r = router.handle(request("GET", "/x", ""));
    assert_eq!(r.body().map(|b| b.as_str()), Some("second"));
}

#[test]
fn middleware_only_mapping_yields_nothing() {
    let mut router: TestRouter = Router::new();
    router.before("/guarded", Pre::Stop("no"));
    router.after("/guarded", Post::Finish("!"));
    assert_eq!(router.len(), 1);
    let r = router.handle(request("GET", "/guarded", ""));
    assert_eq!(r.status(), 404);
}

#[test]
fn nest_appends_mappings() {
    let mut a: TestRouter = Router::new();
    a.route(HTTPMethod::GET, "/a", Handler::Text("a", counter()));
    let mut b: TestRouter = Router::new();
    b.route(HTTPMethod::GET, "/b", Handler::Text("b", counter()));
    a.nest(b);
    assert_eq!(a.len(), 2);
    let r = a.handle(request("GET", "/b", ""));
    assert_eq!(r.body().map(|b| b.as_str()), Some("b"));
}

#[test]
fn pipeline_steps() {
    let mut p = Pipeline::start(1, 1, true);
    assert_eq!(p.next_step(), PipelineStep::RunPre(0));
    p.pre_done(PreRequestMiddlewareResult::Next);
    assert_eq!(p.next_step(), PipelineStep::RunHandler);
    p.handler_done(HttpResponse::new());
    assert_eq!(p.next_step(), PipelineStep::RunPost(0));
    assert_eq!(p.current().status(), 200);
    p.post_done(PostRequestMiddlewareResult::Next(HttpResponse::not_found()));
    assert_eq!(p.next_step(), PipelineStep::Finished);
    assert_eq!(p.finish().unwrap().status(), 404);
    let p = Pipeline::start(3, 2, false);
    assert_eq!(p.next_step(), PipelineStep::Finished);
    assert!(p.finish().is_none());
}

#[test]
fn server_address_round_trip() {
    let s: Server<Handler, Pre, Post> = Server::from_address("127.0.0.1:4221").unwrap();
    assert_eq!(s.address(), "127.0.0.1:4221");
    assert!(Server::<Handler, Pre, Post>::from_address("localhost").is_none());
    assert!(Server::<Handler, Pre, Post>::from_address("h:port").is_none());
    assert!(Server::<Handler, Pre, Post>::from_address("h:99999999999").is_none());
    let mut s: Server<Handler, Pre, Post> = Server::new(8080, "0.0.0.0".to_string());
    let mut router: TestRouter = Router::new();
    router.route(HTTPMethod::GET, "/", Handler::Echo);
    s.use_router(router);
    assert_eq!(s.router().len(), 1);
    assert_eq!(s.address(), "0.0.0.0:8080");
}

#[test]
fn final_response_is_the_last_one_given() {
    let mut a = HttpResponse::new();
    a.set_body("a");
    let mut b = HttpResponse::new();
    b.set_body("b");
    let r = final_response(vec![Some(a), None, Some(b), None]);
    assert_eq!(r.body().map(|x| x.as_str()), Some("b"));
    let r = final_response(vec![None, None]);
    assert_eq!(r.status(), 404);
    let r = final_response(Vec::new());
    assert_eq!(r.to_wire(), "HTTP/1.1 404 Not Found\r\nContent-Length: 0\r\n\r\n");
}
