use bytes::Bytes;
use mini_http::request::{HttpMethod, HttpRequest, HttpRequestBuilder};
use mini_http::response::{HttpResponse, HttpResponseBuilder};
use mini_http::router::{
    collect_params, settle, HttpError, HttpRegexEndpoint, HttpRequestParams, HttpRouter,
    RegexRouter,
};

type Handler = fn(HttpRequest, HttpRequestParams) -> Result<HttpResponse, HttpError>;

fn request(method: &str, target: &str) -> HttpRequest {
    HttpRequestBuilder::from_request_line(&format!("{} {} HTTP/1.1\r\n", method, target))
        .unwrap()
        .build()
}

fn text(body: String) -> Result<HttpResponse, HttpError> {
    Ok(HttpResponseBuilder::default().status(200, Some("OK")).body(Bytes::from(body)).build())
}

fn list_params(_req: HttpRequest, params: HttpRequestParams) -> Result<HttpResponse, HttpError> {
    let mut out = String::new();
    for i in 0..params.len() {
        let e = params.entry(i).unwrap();
        out.push_str(&format!("{}={};", e.name, e.value));
    }
    text(out)
}

fn first(_req: HttpRequest, _params: HttpRequestParams) -> Result<HttpResponse, HttpError> {
    text("first".to_string())
}

fn second(_req: HttpRequest, _params: HttpRequestParams) -> Result<HttpResponse, HttpError> {
    text("second".to_string())
}

fn teapot(_req: HttpRequest, _params: HttpRequestParams) -> Result<HttpResponse, HttpError> {
    Err(HttpError::new(418, Some("I'm a teapot")))
}

fn silent(_req: HttpRequest, _params: HttpRequestParams) -> Result<HttpResponse, HttpError> {
    Err(HttpError::new(503, None))
}

fn route(method: HttpMethod, template: &str, handler: Handler) -> HttpRegexEndpoint<Handler> {
    HttpRegexEndpoint::try_new(method, template, handler).unwrap()
}

fn body_of(response: &HttpResponse) -> String {
    String::from_utf8(response.body.clone().unwrap().to_vec()).unwrap()
}

#[test]
fn template_must_begin_with_a_slash() {
    assert!(HttpRegexEndpoint::try_new(HttpMethod::GET, "echo", first as Handler).is_none());
    assert!(HttpRegexEndpoint::try_new(HttpMethod::GET, "", first as Handler).is_none());
    assert!(HttpRegexEndpoint::try_new(HttpMethod::GET, ":a/b", first as Handler).is_none());
    assert!(HttpRegexEndpoint::try_new(HttpMethod::GET, "/", first as Handler).is_some());
}

#[test]
fn a_literal_segment_may_hold_any_character() {
    for template in ["/a(b", "/a[b", "/a\\b", "/*", "/{x}", "/a|b", "/^$", "/gr\u{fc}n"] {
        let router = RegexRouter { endpoints: vec![route(HttpMethod::GET, template, first)] };
        assert_eq!(router.dispatch(request("GET", template)).status_code, 200, "{}", template);
    }
    let spaced = route(HttpMethod::GET, "/a b", first);
    assert!(spaced.path().is_match("/a b"));
    assert!(!spaced.path().is_match("/a%20b"));
}

#[test]
fn template_that_gives_no_pattern_is_refused() {
    assert!(HttpRegexEndpoint::try_new(HttpMethod::GET, "/:a-b", first as Handler).is_none());
    assert!(HttpRegexEndpoint::try_new(HttpMethod::GET, "/:", first as Handler).is_none());
    assert!(HttpRegexEndpoint::try_new(HttpMethod::GET, "/:a/:a", first as Handler).is_none());
}

#[test]
fn new_builds_the_same_route_as_try_new() {
    let router = RegexRouter {
        endpoints: vec![HttpRegexEndpoint::new(HttpMethod::GET, "/a/:b", list_params as Handler)],
    };
    assert_eq!(body_of(&router.dispatch(request("GET", "/a/x"))), "b=x;");
}

#[test]
fn every_named_parameter_is_extracted() {
    let router = RegexRouter {
        endpoints: vec![route(HttpMethod::GET, "/users/:user/posts/:post/:part", list_params)],
    };
    let response = router.dispatch(request("GET", "/users/ann/posts/42/tail"));
    assert_eq!(response.status_code, 200);
    assert_eq!(body_of(&response), "user=ann;post=42;part=tail;");
}

#[test]
fn template_without_parameters_gives_none() {
    let router = RegexRouter { endpoints: vec![route(HttpMethod::GET, "/a/b", list_params)] };
    assert_eq!(body_of(&router.dispatch(request("GET", "/a/b"))), "");
}

#[test]
fn extract_params_on_a_compiled_pattern() {
    let router: RegexRouter<Handler> = RegexRouter { endpoints: vec![] };
    let path = regex::Regex::new(r"^\/files\/(?<filename>\S+)$").unwrap();
    let params = router.extract_params(&path, &"/files/report.txt".to_string());
    assert_eq!(params.len(), 1);
    assert_eq!(params.get("filename").map(|v| v.as_str()), Some("report.txt"));
    let params = router.extract_params(&path, &"/other".to_string());
    assert_eq!(params.len(), 0);
    let path = regex::Regex::new(r"^(?<a>x)?(y)(?<b>z)$").unwrap();
    let params = router.extract_params(&path, &"yz".to_string());
    assert_eq!(params.len(), 1);
    assert_eq!(params.get("b").map(|v| v.as_str()), Some("z"));
}

#[test]
fn collect_params_pairs_names_with_groups() {
    let some = |s: &str| Some(s.to_string());
    let names = vec![None, some("a"), None, some("b"), some("c"), some("a")];
    let groups = vec![some("whole"), some("1"), some("2"), None, some("3"), some("4")];
    let params = collect_params(&names, &groups);
    assert_eq!(params.len(), 2);
    assert_eq!(params.entry(0).unwrap().name, "a");
    assert_eq!(params.entry(0).unwrap().value, "4");
    assert_eq!(params.entry(1).unwrap().name, "c");
    assert_eq!(params.entry(1).unwrap().value, "3");
    let params = collect_params(&names, &vec![some("whole"), some("1")]);
    assert_eq!(params.len(), 1);
    assert_eq!(params.get("a").map(|v| v.as_str()), Some("1"));
    assert_eq!(collect_params(&vec![], &groups).len(), 0);
}

#[test]
fn a_parameter_takes_what_is_not_white_space() {
    let router = RegexRouter { endpoints: vec![route(HttpMethod::GET, "/echo/:message", list_params)] };
    assert_eq!(body_of(&router.dispatch(request("GET", "/echo/a/b?c=d"))), "message=a/b?c=d;");
    assert_eq!(router.dispatch(request("GET", "/echo/")).status_code, 404);
    assert_eq!(router.dispatch(request("GET", "/echo")).status_code, 404);
}

#[test]
fn the_pattern_covers_the_whole_target() {
    let router = RegexRouter { endpoints: vec![route(HttpMethod::GET, "/a", first)] };
    assert_eq!(router.dispatch(request("GET", "/a")).status_code, 200);
    assert_eq!(router.dispatch(request("GET", "/a/b")).status_code, 404);
    assert_eq!(router.dispatch(request("GET", "/ab")).status_code, 404);
    assert_eq!(router.dispatch(request("GET", "/x/a")).status_code, 404);
    assert_eq!(router.dispatch(request("GET", "/a?q=1")).status_code, 404);
}

#[test]
fn root_template_serves_only_the_root() {
    let router = RegexRouter { endpoints: vec![route(HttpMethod::GET, "/", first)] };
    assert_eq!(router.dispatch(request("GET", "/")).status_code, 200);
    assert_eq!(router.dispatch(request("GET", "/x")).status_code, 404);
}

#[test]
fn the_first_declared_route_wins() {
    let router = RegexRouter {
        endpoints: vec![
            route(HttpMethod::GET, "/x/:any", first),
            route(HttpMethod::GET, "/x/y", second),
        ],
    };
    assert_eq!(body_of(&router.dispatch(request("GET", "/x/y"))), "first");
    let router = RegexRouter {
        endpoints: vec![
            route(HttpMethod::GET, "/x/y", second),
            route(HttpMethod::GET, "/x/:any", first),
        ],
    };
    assert_eq!(body_of(&router.dispatch(request("GET", "/x/y"))), "second");
    assert_eq!(body_of(&router.dispatch(request("GET", "/x/z"))), "first");
}

#[test]
fn the_method_must_be_the_route_s() {
    let router = RegexRouter {
        endpoints: vec![
            route(HttpMethod::POST, "/files/:filename", first),
            route(HttpMethod::GET, "/files/:filename", second),
        ],
    };
    assert_eq!(body_of(&router.dispatch(request("GET", "/files/a"))), "second");
    assert_eq!(body_of(&router.dispatch(request("POST", "/files/a"))), "first");
    assert_eq!(router.dispatch(request("PUT", "/files/a")).status_code, 404);
}

#[test]
fn no_route_gives_404_without_body() {
    let router: RegexRouter<Handler> = RegexRouter { endpoints: vec![] };
    let response = router.dispatch(request("GET", "/nope"));
    assert_eq!(response.status_code, 404);
    assert_eq!(response.status_message.as_deref(), Some("Not Found"));
    assert!(response.body.is_none());
    assert_eq!(response.headers.len(), 0);
}

#[test]
fn a_handler_error_becomes_a_response() {
    let router = RegexRouter {
        endpoints: vec![route(HttpMethod::GET, "/tea", teapot), route(HttpMethod::GET, "/off", silent)],
    };
    let response = router.dispatch(request("GET", "/tea"));
    assert_eq!(response.status_code, 418);
    assert_eq!(response.status_message.as_deref(), Some("I'm a teapot"));
    assert!(response.body.is_none());
    assert_eq!(response.headers.len(), 0);
    let response = router.dispatch(request("GET", "/off"));
    assert_eq!(response.status_code, 503);
    assert_eq!(response.status_message, None);
    assert!(response.body.is_none());
}

#[test]
fn settle_keeps_a_response_and_turns_an_error() {
    let response = settle(text("kept".to_string()));
    assert_eq!(body_of(&response), "kept");
    let response = settle(Err(HttpError::new(400, Some("Bad"))));
    assert_eq!(response.status_code, 400);
    assert_eq!(response.status_message.as_deref(), Some("Bad"));
    assert!(response.body.is_none());
}

#[test]
fn http_error_holds_code_and_message() {
    let e = HttpError::new(422, Some("No body"));
    assert_eq!(e.status_code(), 422);
    assert_eq!(e.status_message().as_deref(), Some("No body"));
    let e = HttpError::new(500, None);
    assert_eq!(e.status_code(), 500);
    assert_eq!(e.status_message(), None);
}

#[test]
fn a_router_can_be_cloned() {
    let router = RegexRouter { endpoints: vec![route(HttpMethod::GET, "/a/:b", list_params)] };
    let copy = router.clone();
    assert_eq!(body_of(&copy.dispatch(request("GET", "/a/1"))), "b=1;");
    assert_eq!(body_of(&router.dispatch(request("GET", "/a/2"))), "b=2;");
}

#[test]
fn literal_segments_match_verbatim() {
    let router = RegexRouter { endpoints: vec![route(HttpMethod::GET, "/a.c", first)] };
    assert_eq!(router.dispatch(request("GET", "/a.c")).status_code, 200);
    assert_eq!(router.dispatch(request("GET", "/abc")).status_code, 404);
    let router = RegexRouter { endpoints: vec![route(HttpMethod::GET, "/a+/x*", first)] };
    assert_eq!(router.dispatch(request("GET", "/a+/x*")).status_code, 200);
    assert_eq!(router.dispatch(request("GET", "/aa/x")).status_code, 404);
    assert_eq!(router.dispatch(request("GET", "/a/")).status_code, 404);
    let router = RegexRouter { endpoints: vec![route(HttpMethod::GET, "/(a|b)/:c", list_params)] };
    assert_eq!(body_of(&router.dispatch(request("GET", "/(a|b)/x"))), "c=x;");
    assert_eq!(router.dispatch(request("GET", "/a/x")).status_code, 404);
}

#[test]
fn a_template_is_compiled_segment_by_segment() {
    let pattern = |template: &str| route(HttpMethod::GET, template, first).path().as_str().to_string();
    assert_eq!(pattern("/"), r"^\/$");
    assert_eq!(pattern("/echo/:message"), r"^\/echo\/(?<message>\S+)$");
    assert_eq!(pattern("/user-agent"), r"^\/user\-agent$");
    assert_eq!(pattern("/a.b(c)"), r"^\/a\.b\(c\)$");
    assert_eq!(pattern("/\\.+*?()|[]{}^$#&-~"), r"^\/\\\.\+\*\?\(\)\|\[\]\{\}\^\$\#\&\-\~$");
    assert_eq!(pattern("/a%b_c!d"), r"^\/a%b_c!d$");
    assert_eq!(pattern("/a//b/"), r"^\/a\/\/b\/$");
    assert_eq!(pattern("/:a/x/:b"), r"^\/(?<a>\S+)\/x\/(?<b>\S+)$");
    assert_eq!(pattern("/a:b"), r"^\/a:b$");
}
