use segment_router::builder::{build_router, DrawRoutes, RouterBuilder};
use segment_router::dispatch::{Action, Dispatcher, Report, ResponseSource};
use segment_router::pipeline::{
    finalize_pipeline_set, new_pipeline, new_pipeline_set, PipelineHandle, PipelineSet,
};
use segment_router::query_string;
use segment_router::route::{ExtractorId, Method};
use segment_router::router::{Resolution, Router};
use segment_router::state::{State, StateKey};
use segment_router::tree::{BuildError, SegmentMapping};

const OK: u16 = 200;
const ACCEPTED: u16 = 202;
const BAD_REQUEST: u16 = 400;
const UNAUTHORIZED: u16 = 401;
const NOT_FOUND: u16 = 404;
const METHOD_NOT_ALLOWED: u16 = 405;

const HELLO_PARAMS: ExtractorId = ExtractorId { id: 1 };
const ADD_PARAMS: ExtractorId = ExtractorId { id: 2 };
const HELLO_KEY: StateKey = StateKey { id: 1 };
const ADD_KEY: StateKey = StateKey { id: 2 };
const LOG_KEY: StateKey = StateKey { id: 3 };

#[derive(Clone, Debug, PartialEq)]
enum Value {
    Hello { name: String },
    Add { x: u64, y: u64 },
    Log(Vec<String>),
}

#[derive(Clone, Debug, PartialEq)]
struct Response {
    status: u16,
    body: String,
    extended_by: Vec<u64>,
}

fn respond(status: u16, body: &str) -> Response {
    Response { status, body: body.to_string(), extended_by: Vec::new() }
}

type Handler = fn(State<Value>) -> (State<Value>, Response);

#[derive(Clone, Copy)]
enum Middleware {
    Note(&'static str),
    Deny,
}

fn note(state: &mut State<Value>, entry: &str) {
    let mut log = match state.take(LOG_KEY) {
        Some(Value::Log(entries)) => entries,
        _ => Vec::new(),
    };
    log.push(entry.to_string());
    state.put(LOG_KEY, Value::Log(log));
}

fn log_of(state: &State<Value>) -> Vec<String> {
    match state.get(LOG_KEY) {
        Some(Value::Log(entries)) => entries.clone(),
        _ => Vec::new(),
    }
}

fn extract_path(extractor: ExtractorId, state: &mut State<Value>, mapping: &SegmentMapping) -> Result<(), String> {
    if extractor == HELLO_PARAMS {
        let names = mapping.get("name");
        match names.first() {
            Some(name) => {
                state.put(HELLO_KEY, Value::Hello { name: name.clone() });
                Ok(())
            }
            None => Err("no name".to_string()),
        }
    } else {
        Err("unknown path extractor".to_string())
    }
}

fn extract_query(extractor: ExtractorId, state: &mut State<Value>, query: Option<&str>) -> Result<(), String> {
    if extractor == ADD_PARAMS {
        let mapping = query_string::split(query);
        let parse = |name: &str| -> Result<u64, String> {
            let values = mapping.get(name);
            let first = values.first().ok_or_else(|| format!("{} is missing", name))?;
            first.parse::<u64>().map_err(|_| format!("{} is no number", name))
        };
        let x = parse("x")?;
        let y = parse("y")?;
        state.put(ADD_KEY, Value::Add { x, y });
        Ok(())
    } else {
        Err("unknown query string extractor".to_string())
    }
}

fn run_pipeline(pipelines: &PipelineSet<Middleware>, handle: PipelineHandle, state: &mut State<Value>) -> Option<Response> {
    let pipeline = pipelines.get(handle).expect("the chain names a pipeline of the set");
    let mut i = 0;
    while i < pipeline.len() {
        match *pipeline.get(i) {
            Middleware::Note(entry) => note(state, entry),
            Middleware::Deny => return Some(respond(UNAUTHORIZED, "denied")),
        }
        i += 1;
    }
    None
}

/// Serves one request: resolves it, then does what the dispatcher asks for.
/// Returns the response and what the middleware and the handler have noted.
fn serve(router: &Router<Handler, Middleware>, method: Method, target: &str) -> (Response, Vec<String>) {
    let (path, query) = match target.find('?') {
        Some(at) => (&target[..at], Some(&target[at + 1..])),
        None => (target, None),
    };
    let (route, mapping) = match router.route(method, path) {
        Resolution::Found { route, mapping } => (route, mapping),
        Resolution::MethodNotAllowed => return (respond(METHOD_NOT_ALLOWED, ""), Vec::new()),
        Resolution::NotFound => return (respond(NOT_FOUND, ""), Vec::new()),
    };
    let handler = match &route.target {
        segment_router::route::RouteTarget::Handler(handler) => *handler,
        segment_router::route::RouteTarget::Router(_) => unreachable!(),
    };
    let mut state: State<Value> = State::new();
    let mut produced: Option<Response> = None;
    let mut failure = String::new();
    let (mut dispatcher, mut action) = Dispatcher::begin(route, router.response_finalizer());
    loop {
        let report = match action {
            Action::ExtractPath(extractor) => match extract_path(extractor, &mut state, &mapping) {
                Ok(()) => Report::Continue,
                Err(message) => {
                    failure = message;
                    Report::Stop
                }
            },
            Action::ExtractQueryString(extractor) => match extract_query(extractor, &mut state, query) {
                Ok(()) => Report::Continue,
                Err(message) => {
                    failure = message;
                    Report::Stop
                }
            },
            Action::RunPipeline(handle) => match run_pipeline(router.pipelines(), handle, &mut state) {
                None => Report::Continue,
                Some(response) => {
                    produced = Some(response);
                    Report::Stop
                }
            },
            Action::InvokeHandler => {
                let (after, response) = handler(state);
                state = after;
                note(&mut state, "handler");
                produced = Some(response);
                Report::Continue
            }
            Action::Respond { source, extenders } => {
                let mut response = match source {
                    ResponseSource::ExtractionFailed(_) => respond(BAD_REQUEST, &failure),
                    ResponseSource::ShortCircuit(_) | ResponseSource::Handler => {
                        produced.take().expect("a response was produced")
                    }
                };
                if let Some(extender) = extenders.path {
                    response.extended_by.push(extender.id);
                }
                if let Some(extender) = extenders.query_string {
                    response.extended_by.push(extender.id);
                }
                assert!(matches!(dispatcher.next(Report::Continue), Action::Finished));
                assert!(dispatcher.is_finished());
                return (response, log_of(&state));
            }
            Action::Finished => unreachable!(),
        };
        action = dispatcher.next(report);
    }
}

fn index(state: State<Value>) -> (State<Value>, Response) {
    (state, respond(OK, ""))
}

fn hello(mut state: State<Value>) -> (State<Value>, Response) {
    let response = match state.take(HELLO_KEY) {
        Some(Value::Hello { name }) => respond(OK, &format!("Hello, {}!", name)),
        _ => panic!("the path extractor has not run"),
    };
    (state, response)
}

fn add(mut state: State<Value>) -> (State<Value>, Response) {
    let response = match state.take(ADD_KEY) {
        Some(Value::Add { x, y }) => respond(OK, &format!("{} + {} = {}", x, y, x + y)),
        _ => panic!("the query string extractor has not run"),
    };
    (state, response)
}

fn submit(state: State<Value>) -> (State<Value>, Response) {
    (state, respond(ACCEPTED, ""))
}

fn first(state: State<Value>) -> (State<Value>, Response) {
    (state, respond(OK, "first"))
}

fn second(state: State<Value>) -> (State<Value>, Response) {
    (state, respond(OK, "second"))
}

fn inner(state: State<Value>) -> (State<Value>, Response) {
    (state, respond(OK, "inner"))
}

fn default_pipelines() -> (PipelineSet<Middleware>, PipelineHandle) {
    let pipelines = new_pipeline_set();
    let (pipelines, default) = pipelines.add(new_pipeline().add(Middleware::Note("session")).build());
    (finalize_pipeline_set(pipelines), default)
}

fn example_router() -> Router<Handler, Middleware> {
    let (pipelines, default) = default_pipelines();
    let mut route: RouterBuilder<Handler, Middleware> = RouterBuilder::new(vec![default], pipelines);
    route.get("/").to(index);
    route.get("/hello/:name").with_path_extractor(HELLO_PARAMS).to(hello);
    route.get("/add").with_query_string_extractor(ADD_PARAMS).to(add);
    {
        let mut api = route.scope("/api");
        api.post("/submit").to(submit);
    }
    build_router(route).unwrap()
}

#[test]
fn build_router_test() {
    let router = example_router();

    let call = |req: hyper::Request| {
        let method = Method::from_name(req.method().as_ref()).unwrap();
        let target = match req.query() {
            Some(query) => format!("{}?{}", req.path(), query),
            None => req.path().to_string(),
        };
        serve(&router, method, &target).0
    };

    let response = call(hyper::Request::new(hyper::Method::Get, "/".parse().unwrap()));
    assert_eq!(response.status, hyper::StatusCode::Ok.as_u16());

    let response = call(hyper::Request::new(hyper::Method::Post, "/api/submit".parse().unwrap()));
    assert_eq!(response.status, hyper::StatusCode::Accepted.as_u16());

    let response = call(hyper::Request::new(hyper::Method::Get, "/hello/world".parse().unwrap()));
    assert_eq!(response.status, hyper::StatusCode::Ok.as_u16());
    let response_bytes = response.body.into_bytes();
    assert_eq!(&String::from_utf8(response_bytes).unwrap(), "Hello, world!");

    let response = call(hyper::Request::new(hyper::Method::Get, "/add?x=16&y=71".parse().unwrap()));
    assert_eq!(response.status, hyper::StatusCode::Ok.as_u16());
    let response_bytes = response.body.into_bytes();
    assert_eq!(&String::from_utf8(response_bytes).unwrap(), "16 + 71 = 87");
}

#[test]
fn example_routes_answer_as_registered() {
    let router = example_router();
    let call = |method, target: &str| serve(&router, method, target).0;

    assert_eq!(call(Method::Get, "/").status, OK);
    assert_eq!(call(Method::Post, "/api/submit").status, ACCEPTED);
    let response = call(Method::Get, "/hello/world");
    assert_eq!((response.status, response.body.as_str()), (OK, "Hello, world!"));
    let response = call(Method::Get, "/add?x=16&y=71");
    assert_eq!((response.status, response.body.as_str()), (OK, "16 + 71 = 87"));
    assert_eq!(call(Method::Get, "/nope").status, NOT_FOUND);
    assert_eq!(call(Method::Delete, "/hello/world").status, METHOD_NOT_ALLOWED);
}

#[test]
fn unknown_path_is_not_found() {
    let router = example_router();
    assert_eq!(serve(&router, Method::Get, "/nope").0.status, NOT_FOUND);
    assert_eq!(serve(&router, Method::Get, "/hello").0.status, NOT_FOUND);
    assert_eq!(serve(&router, Method::Get, "/hello/world/again").0.status, NOT_FOUND);
    assert_eq!(serve(&router, Method::Get, "/api").0.status, NOT_FOUND);
}

#[test]
fn unregistered_method_is_not_allowed() {
    let router = example_router();
    assert_eq!(serve(&router, Method::Delete, "/hello/world").0.status, METHOD_NOT_ALLOWED);
    assert_eq!(serve(&router, Method::Get, "/api/submit").0.status, METHOD_NOT_ALLOWED);
    assert_eq!(serve(&router, Method::Post, "/").0.status, METHOD_NOT_ALLOWED);
}

#[test]
fn get_routes_accept_head() {
    let router = example_router();
    assert_eq!(serve(&router, Method::Head, "/").0.status, OK);
    assert_eq!(serve(&router, Method::Head, "/api/submit").0.status, METHOD_NOT_ALLOWED);
}

#[test]
fn trailing_slash_is_normalized_away() {
    let router = example_router();
    let (response, _) = serve(&router, Method::Get, "/hello/world/");
    assert_eq!(response.status, OK);
    assert_eq!(response.body, "Hello, world!");
    assert_eq!(serve(&router, Method::Post, "/api/submit/").0.status, ACCEPTED);
    assert_eq!(serve(&router, Method::Get, "").0.status, OK);
    assert_eq!(serve(&router, Method::Get, "//").0.status, OK);
}

#[test]
fn literal_paths_resolve_to_their_routes() {
    let (pipelines, default) = default_pipelines();
    let mut route: RouterBuilder<Handler, Middleware> = RouterBuilder::new(vec![default], pipelines);
    route.get("/a/b").to(first);
    route.get("/a").to(second);
    route.get("a/c").to(inner);
    let router = build_router(route).unwrap();
    assert_eq!(serve(&router, Method::Get, "/a/b").0.body, "first");
    assert_eq!(serve(&router, Method::Get, "/a").0.body, "second");
    assert_eq!(serve(&router, Method::Get, "/a/c").0.body, "inner");
}

#[test]
fn dynamic_segment_binds_its_name_to_the_value() {
    let (pipelines, _) = default_pipelines();
    let mut route: RouterBuilder<Handler, Middleware> = RouterBuilder::new(Vec::new(), pipelines);
    route.get("/:name").with_path_extractor(HELLO_PARAMS).to(hello);
    let router = build_router(route).unwrap();
    match router.route(Method::Get, "/value") {
        Resolution::Found { mapping, .. } => {
            assert_eq!(mapping.len(), 1);
            assert_eq!(mapping.binding(0).name, "name");
            assert_eq!(mapping.binding(0).value, "value");
            assert_eq!(mapping.get("name"), vec!["value".to_string()]);
            assert_eq!(mapping.get("other"), Vec::<String>::new());
        }
        _ => panic!("the route was not found"),
    }
    assert_eq!(serve(&router, Method::Get, "/value").0.body, "Hello, value!");
}

#[test]
fn a_name_bound_twice_keeps_both_values() {
    let (pipelines, _) = default_pipelines();
    let mut route: RouterBuilder<Handler, Middleware> = RouterBuilder::new(Vec::new(), pipelines);
    {
        let mut outer = route.scope("/:id");
        let mut nested = outer.scope("/items");
        nested.get("/:id").to(index);
    }
    let router = build_router(route).unwrap();
    match router.route(Method::Get, "/7/items/9") {
        Resolution::Found { mapping, .. } => {
            assert_eq!(mapping.get("id"), vec!["7".to_string(), "9".to_string()]);
        }
        _ => panic!("the route was not found"),
    }
}

#[test]
fn static_child_is_tried_before_the_dynamic_one() {
    let (pipelines, _) = default_pipelines();
    let mut route: RouterBuilder<Handler, Middleware> = RouterBuilder::new(Vec::new(), pipelines);
    route.get("/:name").with_path_extractor(HELLO_PARAMS).to(hello);
    route.get("/fixed").to(first);
    route.get("/deep/end").to(second);
    let router = build_router(route).unwrap();
    assert_eq!(serve(&router, Method::Get, "/fixed").0.body, "first");
    assert_eq!(serve(&router, Method::Get, "/other").0.body, "Hello, other!");
    // The static child `deep` has no route of its own, so the walk falls
    // back to the dynamic child.
    assert_eq!(serve(&router, Method::Get, "/deep").0.body, "Hello, deep!");
    assert_eq!(serve(&router, Method::Get, "/deep/end").0.body, "second");
}

#[test]
fn first_registered_route_wins() {
    let (pipelines, _) = default_pipelines();
    let mut route: RouterBuilder<Handler, Middleware> = RouterBuilder::new(Vec::new(), pipelines);
    route.get("/tie").to(first);
    route.get("/tie").to(second);
    route.post("/tie").to(submit);
    route.request(vec![Method::Post, Method::Put], "/tie").to(second);
    let router = build_router(route).unwrap();
    assert_eq!(serve(&router, Method::Get, "/tie").0.body, "first");
    assert_eq!(serve(&router, Method::Post, "/tie").0.status, ACCEPTED);
    assert_eq!(serve(&router, Method::Put, "/tie").0.body, "second");
    assert_eq!(serve(&router, Method::Delete, "/tie").0.status, METHOD_NOT_ALLOWED);
}

#[test]
fn delegated_route_resumes_in_the_nested_router() {
    let (pipelines, _) = default_pipelines();
    let mut nested: RouterBuilder<Handler, Middleware> = RouterBuilder::new(Vec::new(), pipelines);
    nested.get("/").to(first);
    nested.get("/users/:name").with_path_extractor(HELLO_PARAMS).to(hello);
    let nested = build_router(nested).unwrap();

    let (pipelines, _) = default_pipelines();
    let mut route: RouterBuilder<Handler, Middleware> = RouterBuilder::new(Vec::new(), pipelines);
    route.get("/admin/health").to(second);
    route.delegate("/admin", nested);
    let router = build_router(route).unwrap();

    assert_eq!(serve(&router, Method::Get, "/admin/users/ada").0.body, "Hello, ada!");
    assert_eq!(serve(&router, Method::Get, "/admin").0.body, "first");
    assert_eq!(serve(&router, Method::Get, "/admin/health").0.body, "second");
    assert_eq!(serve(&router, Method::Get, "/admin/nope").0.status, NOT_FOUND);
    assert_eq!(serve(&router, Method::Post, "/admin/users/ada").0.status, METHOD_NOT_ALLOWED);
    assert_eq!(serve(&router, Method::Get, "/users/ada").0.status, NOT_FOUND);
}

#[test]
fn pipelines_run_in_declared_order() {
    let pipelines = new_pipeline_set();
    let (pipelines, a) = pipelines.add(new_pipeline().add(Middleware::Note("a1")).add(Middleware::Note("a2")).build());
    let (pipelines, b) = pipelines.add(new_pipeline().add(Middleware::Note("b")).build());
    let (pipelines, c) = pipelines.add(new_pipeline().add(Middleware::Note("c")).build());
    let pipelines = finalize_pipeline_set(pipelines);
    let mut route: RouterBuilder<Handler, Middleware> = RouterBuilder::new(vec![c, a, b], pipelines);
    route.get("/").to(index);
    let router = build_router(route).unwrap();
    let (response, log) = serve(&router, Method::Get, "/");
    assert_eq!(response.status, OK);
    assert_eq!(log, vec!["c", "a1", "a2", "b", "handler"]);
}

#[test]
fn short_circuit_skips_later_pipelines_and_the_handler() {
    let pipelines = new_pipeline_set();
    let (pipelines, a) = pipelines.add(new_pipeline().add(Middleware::Note("a")).build());
    let (pipelines, deny) = pipelines.add(new_pipeline().add(Middleware::Note("b")).add(Middleware::Deny).build());
    let (pipelines, c) = pipelines.add(new_pipeline().add(Middleware::Note("c")).build());
    let pipelines = finalize_pipeline_set(pipelines);
    let mut route: RouterBuilder<Handler, Middleware> = RouterBuilder::new(vec![a, deny, c], pipelines);
    route.get("/").to(index);
    let router = build_router(route).unwrap();
    let (response, log) = serve(&router, Method::Get, "/");
    assert_eq!(response.status, UNAUTHORIZED);
    assert_eq!(response.body, "denied");
    assert_eq!(log, vec!["a", "b"]);
}

#[test]
fn failed_extraction_never_reaches_the_handler() {
    let router = example_router();
    let (response, log) = serve(&router, Method::Get, "/add?x=16&y=many");
    assert_eq!(response.status, BAD_REQUEST);
    assert_eq!(response.body, "y is no number");
    assert_eq!(log, Vec::<String>::new());
    let (response, log) = serve(&router, Method::Get, "/add");
    assert_eq!(response.status, BAD_REQUEST);
    assert_eq!(response.body, "x is missing");
    assert_eq!(log, Vec::<String>::new());
    let (response, log) = serve(&router, Method::Get, "/add?y=1&x=2");
    assert_eq!(response.status, OK);
    assert_eq!(response.body, "2 + 1 = 3");
    assert_eq!(log, vec!["session", "handler"]);
}

#[test]
fn response_extenders_run_for_declared_extractors() {
    let (pipelines, _) = default_pipelines();
    let mut route: RouterBuilder<Handler, Middleware> = RouterBuilder::new(Vec::new(), pipelines);
    route.add_response_extender(ADD_PARAMS);
    route.get("/add").with_query_string_extractor(ADD_PARAMS).to(add);
    route.get("/hello/:name").with_path_extractor(HELLO_PARAMS).to(hello);
    route.get("/").to(index);
    let router = build_router(route).unwrap();
    let (response, _) = serve(&router, Method::Get, "/add?x=1");
    assert_eq!(response.status, BAD_REQUEST);
    assert_eq!(response.extended_by, vec![ADD_PARAMS.id]);
    assert_eq!(serve(&router, Method::Get, "/add?x=1&y=2").0.extended_by, vec![ADD_PARAMS.id]);
    assert_eq!(serve(&router, Method::Get, "/hello/you").0.extended_by, Vec::<u64>::new());
    assert_eq!(serve(&router, Method::Get, "/").0.extended_by, Vec::<u64>::new());
}

#[test]
fn repeated_requests_resolve_alike() {
    let router = example_router();
    let once = serve(&router, Method::Get, "/hello/world");
    let twice = serve(&router, Method::Get, "/hello/world");
    assert_eq!(once, twice);
    let missing = serve(&router, Method::Get, "/nope");
    assert_eq!(missing, serve(&router, Method::Get, "/nope"));
    assert_eq!(serve(&router, Method::Get, "/hello/world"), once);
}

#[test]
fn two_dynamic_children_fail_the_build() {
    let (pipelines, _) = default_pipelines();
    let mut route: RouterBuilder<Handler, Middleware> = RouterBuilder::new(Vec::new(), pipelines);
    route.get("/users/:id").to(first);
    route.get("/users/:name").to(second);
    assert!(matches!(build_router(route), Err(BuildError::ConflictingDynamicSegments)));

    let (pipelines, _) = default_pipelines();
    let mut route: RouterBuilder<Handler, Middleware> = RouterBuilder::new(Vec::new(), pipelines);
    route.get("/users/:id").to(first);
    route.post("/users/:id").to(second);
    route.get("/users/:id/posts").to(second);
    assert!(build_router(route).is_ok());
}

#[test]
fn unknown_pipeline_fails_the_build() {
    let (pipelines, default) = default_pipelines();
    let stranger = PipelineHandle { index: default.index + 1 };
    let mut route: RouterBuilder<Handler, Middleware> = RouterBuilder::new(vec![default, stranger], pipelines);
    route.get("/:a").to(first);
    route.get("/:b").to(second);
    assert!(matches!(build_router(route), Err(BuildError::UnknownPipeline)));
}

#[test]
fn empty_segments_are_segments() {
    let (pipelines, _) = default_pipelines();
    let mut route: RouterBuilder<Handler, Middleware> = RouterBuilder::new(Vec::new(), pipelines);
    route.get("/a//b").to(first);
    route.get("/a/").to(second);
    let router = build_router(route).unwrap();
    assert_eq!(serve(&router, Method::Get, "/a//b").0.body, "first");
    assert_eq!(serve(&router, Method::Get, "/a/b").0.status, NOT_FOUND);
    // A request loses one trailing slash, so `/a/` asks for `/a`, which has
    // no route, and only `/a//` reaches the route registered as `/a/`.
    assert_eq!(serve(&router, Method::Get, "/a/").0.status, NOT_FOUND);
    assert_eq!(serve(&router, Method::Get, "/a//").0.body, "second");
}

#[test]
fn scoped_route_lies_under_the_joined_path() {
    let (pipelines, default) = default_pipelines();
    let mut route: RouterBuilder<Handler, Middleware> = RouterBuilder::new(vec![default], pipelines);
    {
        let mut api = route.scope("/api");
        api.post("/submit").to(submit);
        api.get("/items/:name").with_path_extractor(HELLO_PARAMS).to(hello);
    }
    route.get("/later").to(first);
    route.request_below("/api", vec![Method::Put], "/submit", second);
    route.request_below("/v2/api", vec![Method::Get], "/deep/down", inner);
    let router = build_router(route).unwrap();

    assert_eq!(serve(&router, Method::Post, "/api/submit").0.status, ACCEPTED);
    assert_eq!(serve(&router, Method::Put, "/api/submit").0.body, "second");
    assert_eq!(serve(&router, Method::Get, "/api/submit").0.status, METHOD_NOT_ALLOWED);
    assert_eq!(serve(&router, Method::Get, "/api/items/pen").0.body, "Hello, pen!");
    assert_eq!(serve(&router, Method::Get, "/v2/api/deep/down").0.body, "inner");
    // A route of the scope exists only below the prefix, and the prefix
    // does not reach the routes drawn after the scope.
    assert_eq!(serve(&router, Method::Post, "/submit").0.status, NOT_FOUND);
    assert_eq!(serve(&router, Method::Get, "/later").0.body, "first");
    assert_eq!(serve(&router, Method::Get, "/api/later").0.status, NOT_FOUND);
    assert_eq!(serve(&router, Method::Get, "/api").0.status, NOT_FOUND);
}

#[test]
fn nested_scopes_join_their_prefixes() {
    let (pipelines, _) = default_pipelines();
    let mut nested: RouterBuilder<Handler, Middleware> = RouterBuilder::new(Vec::new(), pipelines);
    {
        let mut a = nested.scope("/a");
        let mut b = a.scope("/b");
        b.get("/c").to(first);
        b.post("/c").to(submit);
        a.get("/d").to(second);
    }
    let nested = build_router(nested).unwrap();

    let (pipelines, _) = default_pipelines();
    let mut flat: RouterBuilder<Handler, Middleware> = RouterBuilder::new(Vec::new(), pipelines);
    flat.get("/a/b/c").to(first);
    flat.post("/a/b/c").to(submit);
    flat.get("/a/d").to(second);
    let flat = build_router(flat).unwrap();

    for target in ["/a/b/c", "/a/d", "/a/b", "/a", "/b/c", "/c", "/d", "/"] {
        for method in [Method::Get, Method::Post, Method::Delete] {
            assert_eq!(serve(&nested, method, target), serve(&flat, method, target));
        }
    }
    assert_eq!(serve(&nested, Method::Get, "/a/b/c").0.body, "first");
    assert_eq!(serve(&nested, Method::Get, "/a/d").0.body, "second");
}

#[test]
fn scope_for_the_root_stands_on_the_builders_node() {
    let (pipelines, _) = default_pipelines();
    let mut route: RouterBuilder<Handler, Middleware> = RouterBuilder::new(Vec::new(), pipelines);
    {
        let mut same = route.scope("/");
        same.get("/x").to(first);
        same.get("/").to(index);
    }
    let router = build_router(route).unwrap();
    assert_eq!(serve(&router, Method::Get, "/x").0.body, "first");
    assert_eq!(serve(&router, Method::Get, "/").0.status, OK);
}

#[test]
fn unknown_pipeline_in_a_scope_fails_the_build() {
    let (pipelines, default) = default_pipelines();
    let mut route: RouterBuilder<Handler, Middleware> = RouterBuilder::new(vec![default], pipelines);
    route.get("/").to(index);
    {
        let mut api = route.scope("/api");
        api.pipeline_chain = vec![default, PipelineHandle { index: 5 }];
        api.get("/x").to(first);
    }
    assert!(matches!(build_router(route), Err(BuildError::UnknownPipeline)));

    let (pipelines, default) = default_pipelines();
    let mut route: RouterBuilder<Handler, Middleware> = RouterBuilder::new(vec![default], pipelines);
    {
        let mut api = route.scope("/api");
        api.pipeline_chain = Vec::new();
        api.get("/x").to(first);
    }
    let router = build_router(route).unwrap();
    assert_eq!(serve(&router, Method::Get, "/api/x"), (respond(OK, "first"), vec!["handler".to_string()]));
}

#[test]
fn method_names_outside_the_list_are_not_allowed() {
    let router = example_router();
    assert!(matches!(router.route_named("GET", "/hello/world"), Resolution::Found { .. }));
    assert!(matches!(router.route_named("HEAD", "/"), Resolution::Found { .. }));
    assert!(matches!(router.route_named("POST", "/api/submit/"), Resolution::Found { .. }));
    assert!(matches!(router.route_named("DELETE", "/hello/world"), Resolution::MethodNotAllowed));
    assert!(matches!(router.route_named("PURGE", "/hello/world"), Resolution::MethodNotAllowed));
    assert!(matches!(router.route_named("get", "/"), Resolution::MethodNotAllowed));
    assert!(matches!(router.route_named("", "/add"), Resolution::MethodNotAllowed));
    assert!(matches!(router.route_named("PURGE", "/nope"), Resolution::NotFound));
    assert!(matches!(router.route_named("PURGE", "/api"), Resolution::NotFound));
    assert!(matches!(router.route_named("GET", "/nope"), Resolution::NotFound));
}

#[test]
fn built_router_shows_its_tree() {
    let router = example_router();
    let root = router.tree().root();
    assert_eq!(root.route_count(), 1);
    assert!(root.is_well_formed());
    assert!(root.has_known_chains(router.pipelines().len()));
    assert!(!root.has_known_chains(0));
    assert!(root.has_child("hello", segment_router::tree::SegmentType::Static));
    assert!(root.has_child("api", segment_router::tree::SegmentType::Static));
    assert!(!root.has_child("submit", segment_router::tree::SegmentType::Static));
}
