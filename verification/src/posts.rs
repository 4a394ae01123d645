//! The blog-post entity and the key-value storage service behind it.
//!
//! The store itself is an outside collaborator reached through a connection
//! pool; what it holds for a post is a plain field map, and the mapping
//! from that field map to a [`Post`] is this module's own, verified, logic.

use vstd::prelude::*;

use r2d2_redis::redis::Commands;

use crate::http::{lookup_pair, pairs_view};
use crate::strings::{dec_str_of, parse_u32, parse_u32_spec, parse_u64, parse_u64_spec,
    u64_to_string};

verus! {

/// A handle to the shared store: an `r2d2` pool of redis connections,
/// opaque to the verifier. Handles may be cloned freely; every clone
/// reaches the same pool, which is safe for concurrent checkout.
#[verifier::external_body]
pub struct Db {
    pool: r2d2::Pool<r2d2_redis::RedisConnectionManager>,
}

/// One checked-out store connection, opaque to the verifier.
#[verifier::external_body]
pub struct DbConn {
    conn: r2d2::PooledConnection<r2d2_redis::RedisConnectionManager>,
}

impl Db {
    /// Relies on `r2d2_redis::RedisConnectionManager::new` and
    /// `r2d2::Pool::builder().build`: open a connection pool to the store
    /// at `addr`; `None` when the address is refused or the pool cannot be
    /// brought up.
    #[verifier::external_body]
    pub fn connect(addr: &str) -> (r: Option<Db>) {
        let manager = r2d2_redis::RedisConnectionManager::new(addr).ok()?;
        let pool = r2d2::Pool::builder().build(manager).ok()?;
        Some(Db { pool })
    }

    /// Relies on `r2d2::Pool`'s `Clone`: a second handle to the same pool.
    #[verifier::external_body]
    pub fn clone_handle(&self) -> (r: Db) {
        Db { pool: self.pool.clone() }
    }
}

/// Relies on `r2d2::Pool::get`: check one connection out of the pool;
/// `None` when the pool cannot supply one in time.
#[verifier::external_body]
fn pool_checkout(db: &Db) -> (r: Option<DbConn>) {
    db.pool.get().ok().map(|conn| DbConn { conn })
}

/// Relies on redis's `HGETALL` through the `Commands` trait: the field map
/// of the hash stored at `key`, whatever the store holds; `None` on any
/// store error.
#[verifier::external_body]
fn conn_hash_fields(conn: &mut DbConn, key: &str) -> (r: Option<Vec<(String, String)>>) {
    let map: std::collections::HashMap<String, String> = (&mut *conn.conn).hgetall(key).ok()?;
    Some(map.into_iter().collect())
}

/// Relies on redis's `GET` through the `Commands` trait: the string stored
/// at `key`; `None` when the key is missing, holds no string, or the store
/// errs.
#[verifier::external_body]
fn conn_get_string(conn: &mut DbConn, key: &str) -> (r: Option<String>) {
    (&mut *conn.conn).get(key).ok()
}

/// A blog post. `id` is `None` until storage has assigned one.
#[derive(Debug)]
pub struct Post {
    pub id: Option<u32>,
    pub title: String,
    pub content: String,
    pub date: u64,
    pub author_id: u32,
    pub url_fragment: String,
}

/// The mathematical value of a [`Post`].
pub struct PostView {
    pub id: Option<u32>,
    pub title: Seq<char>,
    pub content: Seq<char>,
    pub date: u64,
    pub author_id: u32,
    pub url_fragment: Seq<char>,
}

/// The mathematical values of a list of posts.
pub open spec fn posts_view(l: Seq<Post>) -> Seq<PostView> {
    l.map_values(|p: Post| p@)
}

impl View for Post {
    type V = PostView;

    open spec fn view(&self) -> PostView {
        PostView {
            id: self.id,
            title: self.title@,
            content: self.content@,
            date: self.date,
            author_id: self.author_id,
            url_fragment: self.url_fragment@,
        }
    }
}

// ---------------------------------------------------------------------------
// From a stored field map to a post.
// ---------------------------------------------------------------------------

/// The post a stored field map describes: every field must be present, and
/// the numeric ones must parse; otherwise the map describes no post.
pub open spec fn post_of_fields(f: Seq<(Seq<char>, Seq<char>)>) -> Option<PostView> {
    match (
        lookup_pair(f, "id"@),
        lookup_pair(f, "title"@),
        lookup_pair(f, "content"@),
        lookup_pair(f, "date"@),
        lookup_pair(f, "authorId"@),
        lookup_pair(f, "urlFragment"@),
    ) {
        (Some(id), Some(title), Some(content), Some(date), Some(author), Some(fragment)) => match (
            parse_u32_spec(id),
            parse_u64_spec(date),
            parse_u32_spec(author),
        ) {
            (Some(id_n), Some(date_n), Some(author_n)) => Some(
                PostView {
                    id: Some(id_n),
                    title,
                    content,
                    date: date_n,
                    author_id: author_n,
                    url_fragment: fragment,
                },
            ),
            _ => None,
        },
        _ => None,
    }
}

/// First-wins lookup of `key` in a field list.
fn lookup_field<'a>(fields: &'a Vec<(String, String)>, key: &str) -> (r: Option<&'a String>)
    ensures
        r is Some <==> lookup_pair(pairs_view(fields@), key@) is Some,
        r is Some ==> r->Some_0@ == lookup_pair(pairs_view(fields@), key@)->Some_0,
{
    let ghost qv = pairs_view(fields@);
    let mut i: usize = 0;
    assert(qv.skip(0) =~= qv);
    while i < fields.len()
        invariant
            0 <= i <= fields@.len(),
            qv == pairs_view(fields@),
            qv.len() == fields@.len(),
            lookup_pair(qv, key@) == lookup_pair(qv.skip(i as int), key@),
        decreases fields@.len() - i,
    {
        assert(qv.skip(i as int)[0] == qv[i as int]);
        assert(qv[i as int] == (fields@[i as int].0@, fields@[i as int].1@));
        if crate::strings::str_eq(fields[i].0.as_str(), key) {
            assert(lookup_pair(qv.skip(i as int), key@) == Some(qv[i as int].1));
            return Some(&fields[i].1);
        }
        assert(qv.skip(i as int).skip(1) =~= qv.skip(i + 1));
        i = i + 1;
    }
    assert(qv.skip(fields@.len() as int) =~= Seq::<(Seq<char>, Seq<char>)>::empty());
    None
}

/// Build a post from a stored field map; mirrors [`post_of_fields`]
/// exactly, for every field map the store could hand back.
pub fn post_from_fields(fields: &Vec<(String, String)>) -> (r: Option<Post>)
    ensures
        r is Some <==> post_of_fields(pairs_view(fields@)) is Some,
        r is Some ==> r->Some_0@ == post_of_fields(pairs_view(fields@))->Some_0,
{
    let id_s = match lookup_field(fields, "id") {
        Some(s) => s,
        None => {
            return None;
        },
    };
    let title = match lookup_field(fields, "title") {
        Some(s) => s,
        None => {
            return None;
        },
    };
    let content = match lookup_field(fields, "content") {
        Some(s) => s,
        None => {
            return None;
        },
    };
    let date_s = match lookup_field(fields, "date") {
        Some(s) => s,
        None => {
            return None;
        },
    };
    let author_s = match lookup_field(fields, "authorId") {
        Some(s) => s,
        None => {
            return None;
        },
    };
    let fragment = match lookup_field(fields, "urlFragment") {
        Some(s) => s,
        None => {
            return None;
        },
    };
    let id_n = match parse_u32(id_s.as_str()) {
        Some(n) => n,
        None => {
            return None;
        },
    };
    let date_n = match parse_u64(date_s.as_str()) {
        Some(n) => n,
        None => {
            return None;
        },
    };
    let author_n = match parse_u32(author_s.as_str()) {
        Some(n) => n,
        None => {
            return None;
        },
    };
    Some(
        Post {
            id: Some(id_n),
            title: title.clone(),
            content: content.clone(),
            date: date_n,
            author_id: author_n,
            url_fragment: fragment.clone(),
        },
    )
}

// ---------------------------------------------------------------------------
// The storage service.
// ---------------------------------------------------------------------------

/// The key a post's hash is stored under.
pub open spec fn post_key_spec(id: u32) -> Seq<char> {
    "posts:"@ + dec_str_of(id as nat)
}

/// The key a fragment's post id is stored under.
pub open spec fn fragment_key_spec(frag: Seq<char>) -> Seq<char> {
    "postFragment:"@ + frag
}

fn post_key(id: u32) -> (r: String)
    ensures
        r@ == post_key_spec(id),
{
    let mut s = String::new();
    s.append("posts:");
    let digits = u64_to_string(id as u64);
    s.append(digits.as_str());
    s
}

fn fragment_key(frag: &str) -> (r: String)
    ensures
        r@ == fragment_key_spec(frag@),
{
    let mut s = String::new();
    s.append("postFragment:");
    s.append(frag);
    s
}

/// The post store: every operation checks a connection out of the shared
/// pool, asks the store, and maps what came back through the verified field
/// mapping. What the store holds is an outside matter; the service promises
/// only what holds of every outcome.
pub struct PostService {
    db: Db,
}

impl PostService {
    /// A service over the given connection pool.
    pub fn new(redis: Db) -> PostService {
        PostService { db: redis }
    }

    /// List stored posts. The store-side listing is not wired up: the
    /// result is empty whatever `limit` and `skip` say.
    pub fn list(&self, limit: u32, skip: u32) -> (r: Vec<Post>)
        ensures
            r@.len() == 0,
    {
        let _conn = pool_checkout(&self.db);
        Vec::new()
    }

    /// Fetch the post stored under `id`: the verified field mapping applied
    /// to whatever hash the store returns; `None` when the store cannot be
    /// reached or its fields describe no post. Whatever the store held, a
    /// fetched post always carries a stored id.
    pub fn get(&self, id: u32) -> (r: Option<Post>)
        ensures
            r is Some ==> r->Some_0@.id is Some,
    {
        let key = post_key(id);
        let mut conn = match pool_checkout(&self.db) {
            Some(c) => c,
            None => {
                return None;
            },
        };
        let fields = match conn_hash_fields(&mut conn, key.as_str()) {
            Some(f) => f,
            None => {
                return None;
            },
        };
        post_from_fields(&fields)
    }

    /// Fetch the post whose URL fragment is `frag`: the store maps the
    /// fragment to an id, and the id is fetched as `get` does. Whatever the
    /// store held, a fetched post always carries a stored id.
    pub fn get_by_fragment(&self, frag: &str) -> (r: Option<Post>)
        ensures
            r is Some ==> r->Some_0@.id is Some,
    {
        let key = fragment_key(frag);
        let mut conn = match pool_checkout(&self.db) {
            Some(c) => c,
            None => {
                return None;
            },
        };
        let id_s = match conn_get_string(&mut conn, key.as_str()) {
            Some(s) => s,
            None => {
                return None;
            },
        };
        let id = match parse_u32(id_s.as_str()) {
            Some(n) => n,
            None => {
                return None;
            },
        };
        self.get(id)
    }

    /// Create a post. The store-side write is not wired up: the post comes
    /// back as it was handed in.
    pub fn create(&self, post: Post) -> (r: Post)
        ensures
            r == post,
    {
        let _conn = pool_checkout(&self.db);
        post
    }

    /// Update a post. The store-side write is not wired up: the post comes
    /// back as it was handed in, and a post with no id is returned at once.
    pub fn update(&self, post: Post) -> (r: Post)
        ensures
            r == post,
    {
        if post.id.is_none() {
            return post;
        }
        let mut conn = match pool_checkout(&self.db) {
            Some(c) => c,
            None => {
                return post;
            },
        };
        let id = match post.id {
            Some(n) => n,
            None => 0,
        };
        let key = post_key(id);
        let _exists = conn_get_string(&mut conn, key.as_str());
        post
    }

    /// Delete the post stored under `id`. The store-side delete is not
    /// wired up: only a connection checkout happens.
    pub fn delete(&self, id: u32) {
        let _conn = pool_checkout(&self.db);
    }
}

} // verus!
