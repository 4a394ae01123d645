//! The per-request lifecycle: a request that buffers its body at most once,
//! and a write-once response.

use vstd::prelude::*;

use crate::codec::{
    decode_post, encode_post, encode_posts, post_from_json, post_to_json, posts_to_json,
    DecodeError,
};
use crate::posts::{posts_view, Post, PostView};
use crate::strings::str_eq;

verus! {

/// The HTTP method of a request. Methods the router never registers are
/// folded into `Other`.
#[derive(Clone, Copy, PartialEq, Eq, Structural, Debug)]
pub enum Method {
    Get,
    Post,
    Put,
    Delete,
    Other,
}

/// The character sequences of a list of string pairs.
pub open spec fn pairs_view(q: Seq<(String, String)>) -> Seq<(Seq<char>, Seq<char>)> {
    q.map_values(|p: (String, String)| (p.0@, p.1@))
}

/// First-wins lookup of `k` among key-value pairs.
pub open spec fn lookup_pair(q: Seq<(Seq<char>, Seq<char>)>, k: Seq<char>) -> Option<Seq<char>>
    decreases q.len(),
{
    if q.len() == 0 {
        None
    } else if q[0].0 == k {
        Some(q[0].1)
    } else {
        lookup_pair(q.skip(1), k)
    }
}

/// The mathematical value of a [`Request`].
pub enum ReqView {
    Headers {
        method: Method,
        path: Seq<char>,
        query: Seq<(Seq<char>, Seq<char>)>,
        pending: Seq<char>,
    },
    Body {
        method: Method,
        path: Seq<char>,
        query: Seq<(Seq<char>, Seq<char>)>,
        body: Seq<char>,
    },
}

impl ReqView {
    pub open spec fn method(self) -> Method {
        match self {
            ReqView::Headers { method, .. } => method,
            ReqView::Body { method, .. } => method,
        }
    }

    pub open spec fn path(self) -> Seq<char> {
        match self {
            ReqView::Headers { path, .. } => path,
            ReqView::Body { path, .. } => path,
        }
    }

    pub open spec fn query(self) -> Seq<(Seq<char>, Seq<char>)> {
        match self {
            ReqView::Headers { query, .. } => query,
            ReqView::Body { query, .. } => query,
        }
    }

    /// True once the body has been buffered.
    pub open spec fn is_buffered(self) -> bool {
        self is Body
    }

    /// The buffered body.
    pub open spec fn buffered(self) -> Seq<char>
        recommends
            self.is_buffered(),
    {
        match self {
            ReqView::Headers { pending, .. } => pending,
            ReqView::Body { body, .. } => body,
        }
    }
}

/// Buffering the body: the one-way `Headers -> Body` transition. The unread
/// transport content becomes the buffered body; a request already in `Body`
/// state is left untouched, so the transport is never read twice.
pub open spec fn buffer_body(rv: ReqView) -> ReqView {
    match rv {
        ReqView::Headers { method, path, query, pending } => ReqView::Body {
            method,
            path,
            query,
            body: pending,
        },
        ReqView::Body { .. } => rv,
    }
}

/// Buffering twice yields the same buffered bytes as buffering once.
pub proof fn lemma_buffer_body_idempotent(rv: ReqView)
    ensures
        buffer_body(buffer_body(rv)) == buffer_body(rv),
{
}

/// What an outside URL parser makes of a request target: the absolute path
/// and the percent-decoded query pairs, or nothing when the target cannot
/// be resolved.
pub uninterp spec fn target_parts(t: Seq<char>) -> Option<(Seq<char>, Seq<(Seq<char>, Seq<char>)>)>;

/// Relies on `url::Url::join` against a fixed local base, and `Url::path`
/// and `Url::query_pairs` to read the result: the path and decoded query
/// pairs of a request target, a function of the target string alone.
#[verifier::external_body]
fn parse_target(target: &str) -> (r: Option<(String, Vec<(String, String)>)>)
    ensures
        r is Some <==> target_parts(target@) is Some,
        r is Some ==> (r->Some_0.0@, pairs_view(r->Some_0.1@)) == target_parts(target@)->Some_0,
{
    let base = url::Url::parse("http://localhost").ok()?;
    let u = base.join(target).ok()?;
    let path = u.path().to_string();
    let q: Vec<(String, String)> = u
        .query_pairs()
        .map(|p| (p.0.into_owned(), p.1.into_owned()))
        .collect();
    Some((path, q))
}

/// True when a raw request target is accepted: it is an absolute path and
/// the URL parser resolves it.
pub open spec fn target_accepted(t: Seq<char>) -> bool {
    t.len() > 0 && t[0] == '/' && target_parts(t) is Some
}

/// A per-connection request. It starts in `Headers` state, holding the
/// still-unread transport content; buffering moves it to `Body` state.
pub enum Request {
    Headers {
        method: Method,
        path: String,
        query: Vec<(String, String)>,
        pending: String,
    },
    Body {
        method: Method,
        path: String,
        query: Vec<(String, String)>,
        body: String,
    },
}

impl View for Request {
    type V = ReqView;

    open spec fn view(&self) -> ReqView {
        match self {
            Request::Headers { method, path, query, pending } => ReqView::Headers {
                method: *method,
                path: path@,
                query: pairs_view(query@),
                pending: pending@,
            },
            Request::Body { method, path, query, body } => ReqView::Body {
                method: *method,
                path: path@,
                query: pairs_view(query@),
                body: body@,
            },
        }
    }
}

impl Request {
    /// Build a request in `Headers` state from the raw method, the request
    /// target, and the unread transport content. Fails exactly when the
    /// target is not an absolute path the URL parser accepts.
    pub fn new(method: Method, target: &str, pending: String) -> (r: Option<Request>)
        ensures
            r is Some <==> target_accepted(target@),
            r is Some ==> r->Some_0@ == (ReqView::Headers {
                method,
                path: target_parts(target@)->Some_0.0,
                query: target_parts(target@)->Some_0.1,
                pending: pending@,
            }),
    {
        if target.unicode_len() == 0 || target.get_char(0) != '/' {
            return None;
        }
        match parse_target(target) {
            None => None,
            Some((path, query)) => Some(Request::Headers { method, path, query, pending }),
        }
    }

    /// The method the request came with.
    pub fn method(&self) -> (r: Method)
        ensures
            r == self@.method(),
    {
        match self {
            Request::Headers { method, .. } => *method,
            Request::Body { method, .. } => *method,
        }
    }

    /// The absolute path of the request target, query string stripped.
    pub fn url(&self) -> (r: &String)
        ensures
            r@ == self@.path(),
    {
        match self {
            Request::Headers { path, .. } => path,
            Request::Body { path, .. } => path,
        }
    }

    fn query_vec(&self) -> (r: &Vec<(String, String)>)
        ensures
            pairs_view(r@) == self@.query(),
    {
        match self {
            Request::Headers { query, .. } => query,
            Request::Body { query, .. } => query,
        }
    }

    /// The value of the first query pair whose key is `key`, in either
    /// lifecycle state, without touching the body.
    pub fn query_param(&self, key: &str) -> (r: Option<String>)
        ensures
            r is Some <==> lookup_pair(self@.query(), key@) is Some,
            r is Some ==> r->Some_0@ == lookup_pair(self@.query(), key@)->Some_0,
    {
        let q = self.query_vec();
        let ghost qv = self@.query();
        let mut i: usize = 0;
        assert(qv.skip(0) =~= qv);
        while i < q.len()
            invariant
                0 <= i <= q.len(),
                qv == self@.query(),
                qv == pairs_view(q@),
                qv.len() == q@.len(),
                lookup_pair(qv, key@) == lookup_pair(qv.skip(i as int), key@),
            decreases q.len() - i,
        {
            assert(qv.skip(i as int)[0] == qv[i as int]);
            assert(qv[i as int] == (q@[i as int].0@, q@[i as int].1@));
            if str_eq(q[i].0.as_str(), key) {
                assert(lookup_pair(qv.skip(i as int), key@) == Some(qv[i as int].1));
                return Some(q[i].1.clone());
            }
            assert(qv.skip(i as int).skip(1) =~= qv.skip(i + 1));
            i = i + 1;
        }
        assert(qv.skip(q@.len() as int) =~= Seq::<(Seq<char>, Seq<char>)>::empty());
        None
    }

    /// Decode the buffered body as a post. Asking before the body has been
    /// buffered is a programming error, not a recoverable one.
    pub fn to_json(&self) -> (r: Result<Post, DecodeError>)
        requires
            self@.is_buffered(),
        ensures
            r is Ok <==> decode_post(self@.buffered()) is Some,
            r is Ok ==> r->Ok_0@ == decode_post(self@.buffered())->Some_0,
    {
        match self {
            Request::Body { body, .. } => post_from_json(body.as_str()),
            Request::Headers { .. } => Err(DecodeError),
        }
    }

    /// Buffer the body: read the remaining transport content exactly once.
    /// Already-buffered requests are returned unchanged.
    pub fn body(self) -> (r: Request)
        ensures
            r@ == buffer_body(self@),
    {
        match self {
            Request::Headers { method, path, query, pending } => Request::Body {
                method,
                path,
                query,
                body: pending,
            },
            Request::Body { .. } => self,
        }
    }
}

/// The mathematical value of a [`Response`].
pub enum RespView {
    Fresh,
    HeadersWritten,
    Done { wire: Seq<char> },
}

impl RespView {
    pub open spec fn is_done(self) -> bool {
        self is Done
    }

    /// What was written to the transport.
    pub open spec fn wire(self) -> Seq<char>
        recommends
            self.is_done(),
    {
        match self {
            RespView::Done { wire } => wire,
            _ => Seq::empty(),
        }
    }
}

/// Writing a body: commits the response and carries the written characters.
/// A response already `Done` is left untouched — nothing reaches the
/// transport twice.
pub open spec fn write_body(rv: RespView, data: Seq<char>) -> RespView {
    match rv {
        RespView::Done { .. } => rv,
        _ => RespView::Done { wire: data },
    }
}

/// Write-once: after a first write, any further write leaves the response,
/// and so the transport, exactly as it was.
pub proof fn lemma_write_once(rv: RespView, a: Seq<char>, b: Seq<char>)
    ensures
        write_body(write_body(rv, a), b) == write_body(rv, a),
{
}

/// A per-connection response: fresh, headers committed, or terminally
/// written. `Done` carries what went to the transport.
pub enum Response {
    Fresh,
    HeadersWritten,
    Done { wire: String },
}

impl View for Response {
    type V = RespView;

    open spec fn view(&self) -> RespView {
        match self {
            Response::Fresh => RespView::Fresh,
            Response::HeadersWritten => RespView::HeadersWritten,
            Response::Done { wire } => RespView::Done { wire: wire@ },
        }
    }
}

/// Writing a post as JSON.
pub open spec fn json_write(rv: RespView, p: PostView) -> RespView {
    write_body(rv, encode_post(p))
}

/// Writing a list of posts as a JSON array.
pub open spec fn json_list_write(rv: RespView, l: Seq<PostView>) -> RespView {
    write_body(rv, encode_posts(l))
}

impl Response {
    /// Whether the response has reached its terminal state.
    pub fn is_done(&self) -> (r: bool)
        ensures
            r == self@.is_done(),
    {
        match self {
            Response::Done { .. } => true,
            _ => false,
        }
    }

    /// Write a plain-text body and reach the terminal state. On a response
    /// that is already `Done`, nothing further is written.
    pub fn text(self, data: &str) -> (r: Response)
        ensures
            r@ == write_body(self@, data@),
    {
        match self {
            Response::Done { wire } => Response::Done { wire },
            _ => Response::Done { wire: data.to_owned() },
        }
    }

    /// Serialize a post as JSON, write it, and reach the terminal state. On
    /// a response that is already `Done`, nothing further is written.
    pub fn json(self, data: &Post) -> (r: Response)
        ensures
            r@ == json_write(self@, data@),
    {
        match self {
            Response::Done { wire } => Response::Done { wire },
            _ => Response::Done { wire: post_to_json(data) },
        }
    }

    /// Serialize a list of posts as a JSON array, write it, and reach the
    /// terminal state. On a response that is already `Done`, nothing further
    /// is written.
    pub fn json_list(self, data: &Vec<Post>) -> (r: Response)
        ensures
            r@ == json_list_write(self@, posts_view(data@)),
    {
        match self {
            Response::Done { wire } => Response::Done { wire },
            _ => Response::Done { wire: posts_to_json(data) },
        }
    }
}

/// Round trip: what `json` puts on the wire of a writable response, read
/// back as a post, is the post that was written.
pub proof fn lemma_json_round_trip(rv: RespView, p: PostView)
    requires
        !rv.is_done(),
    ensures
        decode_post(json_write(rv, p).wire()) == Some(p),
{
    crate::codec::lemma_post_round_trip(p);
}

} // verus!
