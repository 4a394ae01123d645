//! Pattern matchers: a compiled regex with named capture groups, and a
//! literal path prefix. Both decide whether a path qualifies for a route
//! and extract its named parameters.

use vstd::prelude::*;

use crate::http::{lookup_pair, pairs_view};
use crate::strings::str_eq;

verus! {

// ---------------------------------------------------------------------------
// Trusted items around the outside regex engine.
// ---------------------------------------------------------------------------

#[verifier::external_type_specification]
#[verifier::external_body]
pub struct ExRegex(regex::Regex);

/// Whether the outside regex engine accepts `pattern`.
pub uninterp spec fn regex_valid(pattern: Seq<char>) -> bool;

/// What the engine's named capture groups are when `pattern` is applied to
/// `text`: `None` when the pattern does not match; otherwise each named
/// group, in group order, paired with what it captured — `None` for a group
/// that did not participate in the match.
pub uninterp spec fn regex_captures(pattern: Seq<char>, text: Seq<char>) -> Option<
    Seq<(Seq<char>, Option<Seq<char>>)>,
>;

/// The character sequences of a list of name/optional-capture pairs.
pub open spec fn opt_pairs_view(q: Seq<(String, Option<String>)>) -> Seq<
    (Seq<char>, Option<Seq<char>>),
> {
    q.map_values(
        |p: (String, Option<String>)|
            (
                p.0@,
                match p.1 {
                    Some(s) => Some(s@),
                    None => None,
                },
            ),
    )
}

/// A matcher that applies a compiled regex to the path and extracts its
/// named capture groups. Read-only after construction.
pub struct RegexMatcher {
    pattern: String,
    regex: regex::Regex,
}

impl View for RegexMatcher {
    type V = Seq<char>;

    closed spec fn view(&self) -> Seq<char> {
        self.pattern@
    }
}

impl RegexMatcher {
    /// Relies on `regex::Regex::new`: compiling succeeds exactly on the
    /// patterns the engine accepts, and the compiled value is the one the
    /// engine built for this pattern. Failing here is a registration-time
    /// error, never a request-time one.
    #[verifier::external_body]
    pub fn compile(pattern: &str) -> (r: Option<RegexMatcher>)
        ensures
            r is Some <==> regex_valid(pattern@),
            r is Some ==> r->Some_0@ == pattern@,
    {
        match regex::Regex::new(pattern) {
            Ok(re) => Some(RegexMatcher { pattern: pattern.to_owned(), regex: re }),
            Err(_) => None,
        }
    }

    /// Apply the pattern to `url`; mirrors [`regex_params`].
    pub fn get_match(&self, url: &str) -> (r: Option<RouteParams>)
        ensures
            r is Some <==> regex_captures(self@, url@) is Some,
            r is Some ==> Some(r->Some_0@) == regex_params(self@, url@),
    {
        match regex_named_captures(self, url) {
            Some(caps) => Some(RouteParams { params: keep_present(caps) }),
            None => None,
        }
    }
}

/// Relies on `regex::Regex::captures`, `Regex::capture_names` and
/// `Captures::name`: the named groups of a match, a function of the pattern
/// and the text alone. The compiled value always comes from
/// [`RegexMatcher::compile`], so it is the engine's regex for `m.pattern`.
#[verifier::external_body]
fn regex_named_captures(m: &RegexMatcher, text: &str) -> (r: Option<Vec<(String, Option<String>)>>)
    ensures
        r is Some <==> regex_captures(m@, text@) is Some,
        r is Some ==> opt_pairs_view(r->Some_0@) == regex_captures(m@, text@)->Some_0,
{
    let caps = m.regex.captures(text)?;
    let mut out: Vec<(String, Option<String>)> = Vec::new();
    for name in m.regex.capture_names().flatten() {
        out.push((name.to_string(), caps.name(name).map(|g| g.as_str().to_string())));
    }
    Some(out)
}

// ---------------------------------------------------------------------------
// Route parameters, and the groups that reach them.
// ---------------------------------------------------------------------------

/// The pairs whose capture participated in the match, in order, unwrapped;
/// groups that did not participate are dropped, never kept empty.
pub open spec fn present_pairs(caps: Seq<(Seq<char>, Option<Seq<char>>)>) -> Seq<
    (Seq<char>, Seq<char>),
>
    decreases caps.len(),
{
    if caps.len() == 0 {
        Seq::empty()
    } else {
        let rest = present_pairs(caps.skip(1));
        match caps[0].1 {
            Some(v) => seq![(caps[0].0, v)] + rest,
            None => rest,
        }
    }
}

/// What a regex matcher extracts for a path: the participating named groups
/// of the match, or nothing when the pattern does not match.
pub open spec fn regex_params(pattern: Seq<char>, path: Seq<char>) -> Option<
    Seq<(Seq<char>, Seq<char>)>,
> {
    match regex_captures(pattern, path) {
        Some(c) => Some(present_pairs(c)),
        None => None,
    }
}

/// Keeping the present pairs distributes over concatenation.
proof fn lemma_present_pairs_append(
    a: Seq<(Seq<char>, Option<Seq<char>>)>,
    b: Seq<(Seq<char>, Option<Seq<char>>)>,
)
    ensures
        present_pairs(a + b) == present_pairs(a) + present_pairs(b),
    decreases a.len(),
{
    if a.len() == 0 {
        assert(a + b =~= b);
        assert(present_pairs(a) =~= Seq::<(Seq<char>, Seq<char>)>::empty());
        assert(present_pairs(a) + present_pairs(b) =~= present_pairs(b));
    } else {
        lemma_present_pairs_append(a.skip(1), b);
        assert((a + b).skip(1) =~= a.skip(1) + b);
        assert((a + b)[0] == a[0]);
        assert(present_pairs(a + b) =~= present_pairs(a) + present_pairs(b));
    }
}

/// Parameters map exactly to the named groups that participated in the
/// match: a name is bound to `v` iff the engine captured `v` for it, and a
/// group that did not participate is absent, never present with an empty
/// value.
pub proof fn lemma_params_exact(
    caps: Seq<(Seq<char>, Option<Seq<char>>)>,
    name: Seq<char>,
    v: Seq<char>,
)
    ensures
        present_pairs(caps).contains((name, v)) <==> caps.contains((name, Some(v))),
    decreases caps.len(),
{
    if caps.len() > 0 {
        lemma_params_exact(caps.skip(1), name, v);
        let tail = caps.skip(1);
        let rest = present_pairs(tail);
        match caps[0].1 {
            Some(w) => {
                let head = seq![(caps[0].0, w)];
                assert(present_pairs(caps) == head + rest);
                if present_pairs(caps).contains((name, v)) {
                    let i = choose|i: int|
                        0 <= i < (head + rest).len() && (head + rest)[i] == (name, v);
                    if i == 0 {
                        assert(caps[0] == (name, Some(v)));
                        assert(caps.contains((name, Some(v))));
                    } else {
                        assert(rest[i - 1] == (name, v));
                        assert(rest.contains((name, v)));
                        assert(tail.contains((name, Some(v))));
                        let j = choose|j: int| 0 <= j < tail.len() && tail[j] == (name, Some(v));
                        assert(caps[j + 1] == (name, Some(v)));
                        assert(caps.contains((name, Some(v))));
                    }
                }
                if caps.contains((name, Some(v))) {
                    let i = choose|i: int| 0 <= i < caps.len() && caps[i] == (name, Some(v));
                    if i == 0 {
                        assert((head + rest)[0] == (name, v));
                        assert(present_pairs(caps).contains((name, v)));
                    } else {
                        assert(tail[i - 1] == (name, Some(v)));
                        assert(tail.contains((name, Some(v))));
                        assert(rest.contains((name, v)));
                        let j = choose|j: int| 0 <= j < rest.len() && rest[j] == (name, v);
                        assert((head + rest)[j + 1] == (name, v));
                        assert(present_pairs(caps).contains((name, v)));
                    }
                }
            },
            None => {
                assert(present_pairs(caps) == rest);
                if caps.contains((name, Some(v))) {
                    let i = choose|i: int| 0 <= i < caps.len() && caps[i] == (name, Some(v));
                    assert(i != 0);
                    assert(tail[i - 1] == (name, Some(v)));
                    assert(tail.contains((name, Some(v))));
                }
                if rest.contains((name, v)) {
                    assert(tail.contains((name, Some(v))));
                    let i = choose|i: int| 0 <= i < tail.len() && tail[i] == (name, Some(v));
                    assert(caps[i + 1] == (name, Some(v)));
                    assert(caps.contains((name, Some(v))));
                }
            },
        }
    }
}

/// Keep the pairs whose capture participated; mirrors [`present_pairs`].
fn keep_present(caps: Vec<(String, Option<String>)>) -> (r: Vec<(String, String)>)
    ensures
        pairs_view(r@) == present_pairs(opt_pairs_view(caps@)),
{
    let ghost cv = opt_pairs_view(caps@);
    let mut out: Vec<(String, String)> = Vec::new();
    let mut i: usize = 0;
    assert(cv.take(0) =~= Seq::<(Seq<char>, Option<Seq<char>>)>::empty());
    assert(pairs_view(out@) =~= present_pairs(cv.take(0)));
    while i < caps.len()
        invariant
            0 <= i <= caps@.len(),
            cv == opt_pairs_view(caps@),
            cv.len() == caps@.len(),
            pairs_view(out@) == present_pairs(cv.take(i as int)),
        decreases caps@.len() - i,
    {
        let (name, capture) = &caps[i];
        match capture {
            Some(value) => {
                out.push((name.clone(), value.clone()));
            },
            None => {},
        }
        proof {
            lemma_present_pairs_append(cv.take(i as int), seq![cv[i as int]]);
            assert(cv.take(i + 1) =~= cv.take(i as int) + seq![cv[i as int]]);
            assert(seq![cv[i as int]].skip(1) =~= Seq::<(Seq<char>, Option<Seq<char>>)>::empty());
            assert(present_pairs(Seq::<(Seq<char>, Option<Seq<char>>)>::empty()) =~= Seq::<
                (Seq<char>, Seq<char>),
            >::empty());
            assert(cv[i as int] == (caps@[i as int].0@,
            match caps@[i as int].1 {
                Some(s) => Some(s@),
                None => None,
            }));
            assert(pairs_view(out@) =~= present_pairs(cv.take(i + 1)));
        }
        i = i + 1;
    }
    assert(cv.take(cv.len() as int) =~= cv);
    out
}

/// Named string values extracted from a matched path, owned by one
/// request-handling call.
pub struct RouteParams {
    params: Vec<(String, String)>,
}

impl View for RouteParams {
    type V = Seq<(Seq<char>, Seq<char>)>;

    closed spec fn view(&self) -> Seq<(Seq<char>, Seq<char>)> {
        pairs_view(self.params@)
    }
}

impl RouteParams {
    /// A parameter map with nothing in it.
    pub fn empty() -> (r: RouteParams)
        ensures
            r@ == Seq::<(Seq<char>, Seq<char>)>::empty(),
    {
        let r = RouteParams { params: Vec::new() };
        assert(r@ =~= Seq::<(Seq<char>, Seq<char>)>::empty());
        r
    }

    /// The value extracted for `name`, first match first.
    pub fn get(&self, name: &str) -> (r: Option<&str>)
        ensures
            r is Some <==> lookup_pair(self@, name@) is Some,
            r is Some ==> r->Some_0@ == lookup_pair(self@, name@)->Some_0,
    {
        let ghost qv = self@;
        let mut i: usize = 0;
        assert(qv.skip(0) =~= qv);
        while i < self.params.len()
            invariant
                0 <= i <= self.params@.len(),
                qv == self@,
                qv == pairs_view(self.params@),
                qv.len() == self.params@.len(),
                lookup_pair(qv, name@) == lookup_pair(qv.skip(i as int), name@),
            decreases self.params@.len() - i,
        {
            assert(qv.skip(i as int)[0] == qv[i as int]);
            assert(qv[i as int] == (self.params@[i as int].0@, self.params@[i as int].1@));
            if str_eq(self.params[i].0.as_str(), name) {
                assert(lookup_pair(qv.skip(i as int), name@) == Some(qv[i as int].1));
                return Some(self.params[i].1.as_str());
            }
            assert(qv.skip(i as int).skip(1) =~= qv.skip(i + 1));
            i = i + 1;
        }
        assert(qv.skip(self.params@.len() as int) =~= Seq::<(Seq<char>, Seq<char>)>::empty());
        None
    }
}

// ---------------------------------------------------------------------------
// The prefix matcher, and the closed set of matchers.
// ---------------------------------------------------------------------------

/// A matcher that accepts any path starting with a literal prefix, with no
/// parameters to extract.
pub struct DefaultMatcher {
    pattern: String,
}

impl View for DefaultMatcher {
    type V = Seq<char>;

    closed spec fn view(&self) -> Seq<char> {
        self.pattern@
    }
}

/// True when `prefix` starts `s`.
fn starts_with_chars(s: &str, prefix: &str) -> (r: bool)
    ensures
        r == prefix@.is_prefix_of(s@),
{
    let n = s.unicode_len();
    let w = prefix.unicode_len();
    if n < w {
        return false;
    }
    let mut k: usize = 0;
    while k < w
        invariant
            n == s@.len(),
            w == prefix@.len(),
            w <= n,
            0 <= k <= w,
            forall|m: int| 0 <= m < k ==> s@[m] == prefix@[m],
        decreases w - k,
    {
        if s.get_char(k) != prefix.get_char(k) {
            proof {
                if prefix@.is_prefix_of(s@) {
                    assert(s@.subrange(0, w as int)[k as int] == s@[k as int]);
                }
            }
            return false;
        }
        k = k + 1;
    }
    assert(s@.subrange(0, w as int) =~= prefix@);
    true
}

impl DefaultMatcher {
    /// A matcher for the literal prefix `pattern`.
    pub fn new(pattern: String) -> (r: DefaultMatcher)
        ensures
            r@ == pattern@,
    {
        DefaultMatcher { pattern }
    }

    /// Match any path that starts with the prefix; no parameters.
    pub fn get_match(&self, url: &str) -> (r: Option<RouteParams>)
        ensures
            r is Some <==> self@.is_prefix_of(url@),
            r is Some ==> r->Some_0@ == Seq::<(Seq<char>, Seq<char>)>::empty(),
    {
        if starts_with_chars(url, self.pattern.as_str()) {
            Some(RouteParams::empty())
        } else {
            None
        }
    }
}

/// The value of a matcher: which variant it is, and its pattern.
pub enum MatcherSpec {
    Capture(Seq<char>),
    Prefix(Seq<char>),
}

/// What a matcher extracts for a path, or `None` when it does not match.
pub open spec fn match_params(m: MatcherSpec, path: Seq<char>) -> Option<
    Seq<(Seq<char>, Seq<char>)>,
> {
    match m {
        MatcherSpec::Capture(pattern) => regex_params(pattern, path),
        MatcherSpec::Prefix(prefix) => if prefix.is_prefix_of(path) {
            Some(Seq::empty())
        } else {
            None
        },
    }
}

/// The closed set of matchers a route rule can hold.
pub enum Matcher {
    Capture(RegexMatcher),
    Prefix(DefaultMatcher),
}

impl View for Matcher {
    type V = MatcherSpec;

    open spec fn view(&self) -> MatcherSpec {
        match self {
            Matcher::Capture(m) => MatcherSpec::Capture(m@),
            Matcher::Prefix(m) => MatcherSpec::Prefix(m@),
        }
    }
}

impl Matcher {
    /// Whether the path qualifies, and the parameters it yields; mirrors
    /// [`match_params`].
    pub fn get_match(&self, url: &str) -> (r: Option<RouteParams>)
        ensures
            r is Some <==> match_params(self@, url@) is Some,
            r is Some ==> Some(r->Some_0@) == match_params(self@, url@),
    {
        match self {
            Matcher::Capture(m) => m.get_match(url),
            Matcher::Prefix(m) => m.get_match(url),
        }
    }
}

/// The common shape of the concrete matchers.
pub trait RouteMatcher {
    /// Whether the path qualifies, and the parameters it yields.
    fn get_match(&self, url: &str) -> Option<RouteParams>;
}

impl RouteMatcher for RegexMatcher {
    fn get_match(&self, url: &str) -> (r: Option<RouteParams>)
        ensures
            r is Some <==> regex_captures(self@, url@) is Some,
            r is Some ==> Some(r->Some_0@) == regex_params(self@, url@),
    {
        RegexMatcher::get_match(self, url)
    }
}

impl RouteMatcher for DefaultMatcher {
    fn get_match(&self, url: &str) -> (r: Option<RouteParams>)
        ensures
            r is Some <==> self@.is_prefix_of(url@),
            r is Some ==> r->Some_0@ == Seq::<(Seq<char>, Seq<char>)>::empty(),
    {
        DefaultMatcher::get_match(self, url)
    }
}

/// Anything a route can be registered under: it names its matcher value and
/// yields the matcher itself.
pub trait IntoRouteMatcher {
    /// The value of the matcher this converts into.
    spec fn matcher_spec(&self) -> MatcherSpec;

    /// Convert into the matcher.
    fn into_matcher(self) -> (r: Matcher)
        ensures
            r@ == self.matcher_spec(),
    ;
}

impl IntoRouteMatcher for RegexMatcher {
    open spec fn matcher_spec(&self) -> MatcherSpec {
        MatcherSpec::Capture(self@)
    }

    fn into_matcher(self) -> (r: Matcher) {
        Matcher::Capture(self)
    }
}

impl IntoRouteMatcher for String {
    open spec fn matcher_spec(&self) -> MatcherSpec {
        MatcherSpec::Prefix(self@)
    }

    fn into_matcher(self) -> (r: Matcher) {
        Matcher::Prefix(DefaultMatcher::new(self))
    }
}

impl IntoRouteMatcher for &str {
    open spec fn matcher_spec(&self) -> MatcherSpec {
        MatcherSpec::Prefix(self@)
    }

    fn into_matcher(self) -> (r: Matcher) {
        Matcher::Prefix(DefaultMatcher::new(self.to_owned()))
    }
}

} // verus!
