//! The matchers and the router: registration order, named captures, and
//! the blog route table.

use webroute::blog::{list_params, Route};
use webroute::http::{Method, Request};
use webroute::matcher::{DefaultMatcher, IntoRouteMatcher, RegexMatcher};
use webroute::router::Router;

#[test]
fn earliest_registered_rule_wins() {
    // A deliberately ambiguous pair: both prefixes accept the same path.
    let mut router: Router<u32> = Router::new();
    router.get("/api", 1u32);
    router.get("/api/posts", 2u32);
    let (handler, _params) = router.resolve(Method::Get, "/api/posts/anything").expect("a match");
    assert_eq!(*handler, 1);
}

#[test]
fn method_must_match_too() {
    let mut router: Router<u32> = Router::new();
    router.post("/api/posts", 1u32);
    router.get("/api/posts", 2u32);
    let (handler, _params) = router.resolve(Method::Get, "/api/posts").expect("a match");
    assert_eq!(*handler, 2);
    assert!(router.resolve(Method::Delete, "/api/posts").is_none());
}

#[test]
fn empty_router_resolves_nothing() {
    let router: Router<u32> = Router::new();
    assert!(router.resolve(Method::Get, "/api/posts").is_none());
}

#[test]
fn capture_params_map_exactly_to_participating_groups() {
    let matcher =
        RegexMatcher::compile("^/x/(?P<a>[0-9]+)(-(?P<b>[a-z]+))?$").expect("pattern compiles");
    let params = matcher.get_match("/x/42").expect("a match");
    assert_eq!(params.get("a"), Some("42"));
    // The optional group did not participate: absent, not empty.
    assert_eq!(params.get("b"), None);

    let params = matcher.get_match("/x/42-ab").expect("a match");
    assert_eq!(params.get("a"), Some("42"));
    assert_eq!(params.get("b"), Some("ab"));

    assert!(matcher.get_match("/y/42").is_none());
}

#[test]
fn invalid_pattern_fails_at_registration() {
    assert!(RegexMatcher::compile("(unclosed").is_none());
}

#[test]
fn prefix_matcher_has_no_params() {
    let matcher = DefaultMatcher::new("/api".to_string());
    let params = matcher.get_match("/api/posts").expect("a match");
    assert_eq!(params.get("anything"), None);
    assert!(matcher.get_match("/other").is_none());
}

#[test]
fn strings_convert_to_prefix_matchers() {
    let matcher = "/api".into_matcher();
    assert!(matcher.get_match("/api/posts").is_some());
    let matcher = "/api".to_string().into_matcher();
    assert!(matcher.get_match("/api/posts").is_some());
}

#[test]
fn numeric_id_beats_fragment_rule() {
    let router = Route::router().expect("the blog patterns compile");
    let (route, params) = router.resolve(Method::Get, "/api/posts/42").expect("a match");
    assert_eq!(*route, Route::GetPost);
    assert_eq!(params.get("id"), Some("42"));

    let (route, params) = router.resolve(Method::Get, "/api/posts/hello-world").expect("a match");
    assert_eq!(*route, Route::GetPostByFragment);
    assert_eq!(params.get("fragment"), Some("hello-world"));
}

#[test]
fn blog_routes_by_method() {
    let router = Route::router().expect("the blog patterns compile");
    let (route, _) = router.resolve(Method::Get, "/api/posts").expect("a match");
    assert_eq!(*route, Route::GetPosts);
    let (route, _) = router.resolve(Method::Post, "/api/posts").expect("a match");
    assert_eq!(*route, Route::CreatePost);
    let (route, _) = router.resolve(Method::Put, "/api/posts/").expect("a match");
    assert_eq!(*route, Route::UpdatePost);
    let (route, params) = router.resolve(Method::Delete, "/api/posts/9/").expect("a match");
    assert_eq!(*route, Route::DeletePost);
    assert_eq!(params.get("id"), Some("9"));
    assert!(router.resolve(Method::Get, "/api/unknown").is_none());
}

#[test]
fn matchers_and_routers_are_safe_to_share() {
    // Read-only after construction: shareable across worker threads.
    fn check<T: Send + Sync>() {}
    check::<RegexMatcher>();
    check::<DefaultMatcher>();
    check::<Router<u32>>();
}

#[test]
fn paging_params_default_and_parse() {
    let with_query =
        Request::new(Method::Get, "/api/posts?limit=5&skip=2", String::new()).expect("parses");
    assert_eq!(list_params(&with_query), (5, 2));

    let no_query = Request::new(Method::Get, "/api/posts", String::new()).expect("parses");
    assert_eq!(list_params(&no_query), (10, 0));

    let unreadable =
        Request::new(Method::Get, "/api/posts?limit=abc&skip=-1", String::new()).expect("parses");
    assert_eq!(list_params(&unreadable), (10, 0));
}
