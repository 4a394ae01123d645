//! The blog routes: a route table over the post store, and the handler
//! that serves each route.

use vstd::prelude::*;

use crate::codec::{decode_post, encode_posts};
use crate::http::{buffer_body, lookup_pair, write_body, Method, Request, Response};
use crate::matcher::{MatcherSpec, RegexMatcher, RouteParams};
use crate::posts::{posts_view, Db, Post, PostService, PostView};
use crate::router::{RouteHandler, Router};
use crate::strings::{parse_u32, parse_u32_spec};

verus! {

/// The per-request context of the blog: the post service, and the shared
/// store handle it was built over.
pub struct BlogContext {
    posts: PostService,
    redis: Db,
}

impl BlogContext {
    /// A fresh context over the shared store handle.
    pub fn new(redis: Db) -> BlogContext {
        BlogContext { posts: PostService::new(redis.clone_handle()), redis }
    }
}

/// The blog's routes, one handler each.
#[derive(Clone, Copy, Debug, PartialEq, Eq, Structural)]
pub enum Route {
    GetPosts,
    GetPost,
    GetPostByFragment,
    CreatePost,
    UpdatePost,
    DeletePost,
}

/// The blog route table: methods and patterns, in registration order. The
/// numeric-id rule stands before the fragment rule, so an all-digit
/// remainder is an id, never a fragment.
pub open spec fn blog_rules() -> Seq<(Method, MatcherSpec)> {
    seq![
        (Method::Get, MatcherSpec::Capture("^/api/posts/(?P<id>[0-9]{1,10})/?$"@)),
        (Method::Get, MatcherSpec::Capture("^/api/posts/(?P<fragment>.+)/?$"@)),
        (Method::Get, MatcherSpec::Capture("^/api/posts/?$"@)),
        (Method::Post, MatcherSpec::Capture("^/api/posts/?$"@)),
        (Method::Put, MatcherSpec::Capture("^/api/posts/?$"@)),
        (Method::Delete, MatcherSpec::Capture("^/api/posts/(?P<id>[0-9]+)/?$"@)),
    ]
}

/// The paging parameters of a list request: `limit` defaults to 10 and
/// `skip` to 0 when the query lacks them or they do not read as numbers.
pub open spec fn page_params(q: Seq<(Seq<char>, Seq<char>)>) -> (u32, u32) {
    (
        match lookup_pair(q, "limit"@) {
            Some(s) => match parse_u32_spec(s) {
                Some(n) => n,
                None => 10u32,
            },
            None => 10u32,
        },
        match lookup_pair(q, "skip"@) {
            Some(s) => match parse_u32_spec(s) {
                Some(n) => n,
                None => 0u32,
            },
            None => 0u32,
        },
    )
}

/// Read the paging parameters off a request's query, in either lifecycle
/// state; mirrors [`page_params`].
pub fn list_params(req: &Request) -> (r: (u32, u32))
    ensures
        r == page_params(req@.query()),
{
    let limit: u32 = match req.query_param("limit") {
        Some(s) => match parse_u32(s.as_str()) {
            Some(n) => n,
            None => 10u32,
        },
        None => 10u32,
    };
    let skip: u32 = match req.query_param("skip") {
        Some(s) => match parse_u32(s.as_str()) {
            Some(n) => n,
            None => 0u32,
        },
        None => 0u32,
    };
    (limit, skip)
}

/// Answer a single-post fetch: the post as JSON when the store had one, a
/// generic not-found text when it had none. This pins the handler's
/// decision for every value the store could return.
pub fn respond_post(res: Response, found: Option<Post>) -> (r: Response)
    ensures
        r@ == match found {
            Some(p) => crate::http::json_write(res@, p@),
            None => write_body(res@, "Not Found"@),
        },
{
    match found {
        Some(post) => res.json(&post),
        None => res.text("Not Found"),
    }
}

impl Route {
    /// Build the blog router: the six rules of [`blog_rules`], in that
    /// order. Compiling a pattern fails fast: an engine-refused pattern
    /// gives `None` here, at registration time, never at request time.
    pub fn router() -> (r: Option<Router<Route>>)
        ensures
            r is Some ==> r->Some_0.rules() == blog_rules(),
            r is Some ==> r->Some_0.handler_at(0) == Route::GetPost && r->Some_0.handler_at(1)
                == Route::GetPostByFragment && r->Some_0.handler_at(2) == Route::GetPosts
                && r->Some_0.handler_at(3) == Route::CreatePost && r->Some_0.handler_at(4)
                == Route::UpdatePost && r->Some_0.handler_at(5) == Route::DeletePost,
    {
        let m_id = match RegexMatcher::compile("^/api/posts/(?P<id>[0-9]{1,10})/?$") {
            Some(m) => m,
            None => {
                return None;
            },
        };
        let m_fragment = match RegexMatcher::compile("^/api/posts/(?P<fragment>.+)/?$") {
            Some(m) => m,
            None => {
                return None;
            },
        };
        let m_list = match RegexMatcher::compile("^/api/posts/?$") {
            Some(m) => m,
            None => {
                return None;
            },
        };
        let m_create = match RegexMatcher::compile("^/api/posts/?$") {
            Some(m) => m,
            None => {
                return None;
            },
        };
        let m_update = match RegexMatcher::compile("^/api/posts/?$") {
            Some(m) => m,
            None => {
                return None;
            },
        };
        let m_delete = match RegexMatcher::compile("^/api/posts/(?P<id>[0-9]+)/?$") {
            Some(m) => m,
            None => {
                return None;
            },
        };
        let mut router = Router::new();
        router.get(m_id, Route::GetPost);
        router.get(m_fragment, Route::GetPostByFragment);
        router.get(m_list, Route::GetPosts);
        router.post(m_create, Route::CreatePost);
        router.put(m_update, Route::UpdatePost);
        router.delete(m_delete, Route::DeletePost);
        proof {
            assert(router.rules() =~= blog_rules());
        }
        Some(router)
    }

    /// Serve one matched request. Listing writes the stored posts as a
    /// JSON array; a single post is written as JSON, or answered with a
    /// generic not-found text when the store has nothing usable; create and
    /// update buffer and decode the body, answering with a generic
    /// bad-request text when it does not decode; delete answers with the
    /// request and response as they were.
    pub fn handle(
        &self,
        ctx: &mut BlogContext,
        req: Request,
        res: Response,
        params: RouteParams,
    ) -> (r: (Request, Response))
        ensures
            match *self {
                Route::GetPosts => r.0@ == req@ && r.1@ == write_body(
                    res@,
                    encode_posts(Seq::<PostView>::empty()),
                ),
                Route::GetPost => r.0@ == req@ && r.1@.is_done() && (match lookup_pair(
                    params@,
                    "id"@,
                ) {
                    Some(s) => parse_u32_spec(s) is None ==> r.1@ == write_body(
                        res@,
                        "Not Found"@,
                    ),
                    None => r.1@ == write_body(res@, "Not Found"@),
                }),
                Route::GetPostByFragment => r.0@ == req@ && r.1@.is_done() && (lookup_pair(
                    params@,
                    "fragment"@,
                ) is None ==> r.1@ == write_body(res@, "Not Found"@)),
                Route::DeletePost => r.0@ == req@ && r.1@ == res@,
                Route::UpdatePost => r.0@ == buffer_body(req@) && (if decode_post(
                    buffer_body(req@).buffered(),
                ) is Some {
                    r.1@ == res@
                } else {
                    r.1@ == write_body(res@, "Bad Request"@)
                }),
                Route::CreatePost => r.0@ == buffer_body(req@) && (if decode_post(
                    buffer_body(req@).buffered(),
                ) is Some {
                    r.1@ == res@
                } else {
                    r.1@ == write_body(res@, "Bad Request"@)
                }),
            },
    {
        match *self {
            Route::GetPosts => {
                let paging = list_params(&req);
                let posts = ctx.posts.list(paging.0, paging.1);
                proof {
                    assert(posts_view(posts@) =~= Seq::<PostView>::empty());
                }
                (req, res.json_list(&posts))
            },
            Route::GetPost => {
                let id = match params.get("id") {
                    Some(s) => parse_u32(s),
                    None => None,
                };
                match id {
                    Some(id) => {
                        let found = ctx.posts.get(id);
                        (req, respond_post(res, found))
                    },
                    None => (req, res.text("Not Found")),
                }
            },
            Route::GetPostByFragment => {
                match params.get("fragment") {
                    Some(frag) => {
                        let found = ctx.posts.get_by_fragment(frag);
                        (req, respond_post(res, found))
                    },
                    None => (req, res.text("Not Found")),
                }
            },
            Route::DeletePost => {
                match params.get("id") {
                    Some(s) => {
                        match parse_u32(s) {
                            Some(id) => ctx.posts.delete(id),
                            None => (),
                        }
                    },
                    None => (),
                }
                (req, res)
            },
            Route::UpdatePost => {
                let req = req.body();
                match req.to_json() {
                    Ok(post) => {
                        let _updated = ctx.posts.update(post);
                        (req, res)
                    },
                    Err(_) => (req, res.text("Bad Request")),
                }
            },
            Route::CreatePost => {
                let req = req.body();
                match req.to_json() {
                    Ok(post) => {
                        let _created = ctx.posts.create(post);
                        (req, res)
                    },
                    Err(_) => (req, res.text("Bad Request")),
                }
            },
        }
    }
}

impl RouteHandler for Route {
    type Context = BlogContext;

    fn route(
        &self,
        ctx: &mut BlogContext,
        req: Request,
        res: Response,
        params: RouteParams,
    ) -> (r: (Request, Response))
        ensures
            match *self {
                Route::GetPosts => r.0@ == req@ && r.1@ == write_body(
                    res@,
                    encode_posts(Seq::<PostView>::empty()),
                ),
                Route::GetPost => r.0@ == req@ && r.1@.is_done() && (match lookup_pair(
                    params@,
                    "id"@,
                ) {
                    Some(s) => parse_u32_spec(s) is None ==> r.1@ == write_body(
                        res@,
                        "Not Found"@,
                    ),
                    None => r.1@ == write_body(res@, "Not Found"@),
                }),
                Route::GetPostByFragment => r.0@ == req@ && r.1@.is_done() && (lookup_pair(
                    params@,
                    "fragment"@,
                ) is None ==> r.1@ == write_body(res@, "Not Found"@)),
                Route::DeletePost => r.0@ == req@ && r.1@ == res@,
                Route::UpdatePost => r.0@ == buffer_body(req@) && (if decode_post(
                    buffer_body(req@).buffered(),
                ) is Some {
                    r.1@ == res@
                } else {
                    r.1@ == write_body(res@, "Bad Request"@)
                }),
                Route::CreatePost => r.0@ == buffer_body(req@) && (if decode_post(
                    buffer_body(req@).buffered(),
                ) is Some {
                    r.1@ == res@
                } else {
                    r.1@ == write_body(res@, "Bad Request"@)
                }),
            },
    {
        self.handle(ctx, req, res, params)
    }
}

} // verus!
