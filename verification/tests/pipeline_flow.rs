//! The middleware pipeline and the server front: stage order, the
//! short-circuit on `Done`, and the boundary responses.

use webroute::codec::post_to_json;
use webroute::http::{Method, Request, Response};
use webroute::matcher::RouteParams;
use webroute::pipeline::{run_pipeline, ContextFactory, LogMiddleware, Middleware, WebServer};
use webroute::posts::Post;
use webroute::router::{RouteHandler, Router};

/// A per-request context that records which stages and handlers ran.
#[derive(Default)]
struct Trace {
    calls: Vec<String>,
}

/// A stage that logs its name and, when asked, finishes the response.
struct NamedStage {
    name: &'static str,
    terminate: bool,
}

impl Middleware for NamedStage {
    type Context = Trace;

    fn exec(&self, ctx: &mut Trace, req: Request, res: Response) -> (Request, Response) {
        ctx.calls.push(self.name.to_string());
        if self.terminate {
            (req, res.text("terminated"))
        } else {
            (req, res)
        }
    }
}

fn fresh_request(target: &str) -> Request {
    Request::new(Method::Get, target, String::new()).expect("absolute path")
}

#[test]
fn pipeline_runs_stages_in_order() {
    let stages = vec![
        NamedStage { name: "a", terminate: false },
        NamedStage { name: "b", terminate: false },
        NamedStage { name: "c", terminate: false },
    ];
    let mut trace = Trace::default();
    let (_req, res, ran) =
        run_pipeline(&stages, &mut trace, fresh_request("/x"), Response::Fresh);
    assert_eq!(trace.calls, vec!["a", "b", "c"]);
    assert_eq!(ran, 3);
    assert!(!res.is_done());
}

#[test]
fn pipeline_short_circuits_after_done() {
    let stages = vec![
        NamedStage { name: "a", terminate: true },
        NamedStage { name: "b", terminate: false },
        NamedStage { name: "c", terminate: false },
    ];
    let mut trace = Trace::default();
    let (_req, res, ran) =
        run_pipeline(&stages, &mut trace, fresh_request("/x"), Response::Fresh);
    // A drove the response to `Done`: B and C were never invoked.
    assert_eq!(trace.calls, vec!["a"]);
    assert_eq!(ran, 1);
    match res {
        Response::Done { wire } => assert_eq!(wire, "terminated"),
        _ => panic!("the response must be done"),
    }
}

#[test]
fn observer_stage_passes_values_through() {
    let stages: Vec<LogMiddleware<Trace>> = vec![LogMiddleware::new()];
    let mut trace = Trace::default();
    let req = Request::new(Method::Get, "/x?k=v", "body".to_string()).expect("absolute path");
    let (req, res, ran) = run_pipeline(&stages, &mut trace, req, Response::Fresh);
    assert_eq!(ran, 1);
    assert!(!res.is_done());
    assert_eq!(req.url(), "/x");
    assert_eq!(req.query_param("k").as_deref(), Some("v"));
}

struct TraceFactory;

impl ContextFactory for TraceFactory {
    type Context = Trace;

    fn get(&self) -> Trace {
        Trace::default()
    }
}

#[test]
fn malformed_target_short_circuits_before_any_stage() {
    let mut server: WebServer<TraceFactory, NamedStage> = WebServer::new(TraceFactory);
    server.middleware(NamedStage { name: "a", terminate: false });
    let (res, ran) = server.handle(Method::Post, "no-leading-slash", String::new());
    assert_eq!(ran, 0);
    match res {
        Response::Done { wire } => assert_eq!(wire, "Bad Request"),
        _ => panic!("the response must be done"),
    }
}

#[test]
fn pipeline_without_done_still_finalizes() {
    let mut server: WebServer<TraceFactory, NamedStage> = WebServer::new(TraceFactory);
    server.middleware(NamedStage { name: "a", terminate: false });
    let (res, ran) = server.handle(Method::Get, "/anything", String::new());
    assert_eq!(ran, 1);
    match res {
        Response::Done { wire } => assert_eq!(wire, ""),
        _ => panic!("the connection must still get a response"),
    }
}

/// A handler that reads the body, decodes it, and writes it back as JSON.
struct EchoHandler;

impl RouteHandler for EchoHandler {
    type Context = Trace;

    fn route(
        &self,
        ctx: &mut Trace,
        req: Request,
        res: Response,
        _params: RouteParams,
    ) -> (Request, Response) {
        ctx.calls.push("handler".to_string());
        let req = req.body();
        match req.to_json() {
            Ok(post) => (req, res.json(&post)),
            Err(_) => (req, res.text("Bad Request")),
        }
    }
}

/// A router stage set up like the blog's: one PUT rule over the posts path.
enum Stage {
    Count(NamedStage),
    Routes(Router<EchoHandler>),
}

impl Middleware for Stage {
    type Context = Trace;

    fn exec(&self, ctx: &mut Trace, req: Request, res: Response) -> (Request, Response) {
        match self {
            Stage::Count(s) => s.exec(ctx, req, res),
            Stage::Routes(r) => r.exec(ctx, req, res),
        }
    }
}

fn put_stages() -> Vec<Stage> {
    let mut router: Router<EchoHandler> = Router::new();
    router.put("/api/posts", EchoHandler);
    vec![
        Stage::Count(NamedStage { name: "observer", terminate: false }),
        Stage::Routes(router),
    ]
}

#[test]
fn unmatched_route_gets_not_found_and_no_handler_runs() {
    let stages = put_stages();
    let mut trace = Trace::default();
    let (_req, res, ran) = run_pipeline(
        &stages,
        &mut trace,
        fresh_request("/api/unknown"),
        Response::Fresh,
    );
    // The observer and the router stage ran; no handler was invoked.
    assert_eq!(ran, 2);
    assert_eq!(trace.calls, vec!["observer"]);
    match res {
        Response::Done { wire } => assert_eq!(wire, "Not Found"),
        _ => panic!("the response must be done"),
    }
}

#[test]
fn put_with_wellformed_body_writes_exactly_once_and_halts() {
    let post = Post {
        id: Some(4),
        title: "title".to_string(),
        content: "content".to_string(),
        date: 99,
        author_id: 1,
        url_fragment: "title".to_string(),
    };
    let body = post_to_json(&post);
    let expected = body.clone();
    let stages = put_stages();
    let mut trace = Trace::default();
    let req = Request::new(Method::Put, "/api/posts", body).expect("absolute path");
    let (_req, res, ran) = run_pipeline(&stages, &mut trace, req, Response::Fresh);
    // The handler ran once and the pipeline halted right after the router
    // stage; exactly one write reached the wire.
    assert_eq!(ran, 2);
    assert_eq!(trace.calls, vec!["observer", "handler"]);
    match res {
        Response::Done { wire } => assert_eq!(wire, expected),
        _ => panic!("exactly one write must have happened"),
    }
}
