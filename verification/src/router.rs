//! The router: an ordered list of `(method, matcher, handler)` rules.
//! Resolution walks the rules in registration order and the earliest match
//! wins. The router is also usable as one middleware stage.

use vstd::prelude::*;

use crate::http::{Method, Request, Response};
use crate::matcher::{match_params, IntoRouteMatcher, Matcher, MatcherSpec, RouteParams};
use crate::pipeline::Middleware;

verus! {

/// A handler a matched route delegates to: given the per-request context,
/// the live request/response pair and the extracted parameters, it returns
/// their replacements.
pub trait RouteHandler {
    /// The per-request context the handler works with.
    type Context;

    /// Handle one matched request.
    fn route(
        &self,
        ctx: &mut Self::Context,
        req: Request,
        res: Response,
        params: RouteParams,
    ) -> (Request, Response);
}

/// One registered rule: a method, a matcher, and the handler to run.
struct RouteMatch<T> {
    method: Method,
    matcher: Matcher,
    route: T,
}

/// An ordered collection of route rules, immutable once registered.
pub struct Router<T> {
    routes: Vec<RouteMatch<T>>,
}

/// Whether one rule accepts the request's method and path.
pub open spec fn rule_matches(rule: (Method, MatcherSpec), method: Method, path: Seq<char>) -> bool {
    rule.0 == method && match_params(rule.1, path) is Some
}

/// The position of the earliest-registered rule that accepts the request,
/// if any: registration order decides between overlapping rules.
pub open spec fn first_match(
    rules: Seq<(Method, MatcherSpec)>,
    method: Method,
    path: Seq<char>,
) -> Option<nat>
    decreases rules.len(),
{
    if rules.len() == 0 {
        None
    } else if rule_matches(rules[0], method, path) {
        Some(0)
    } else {
        match first_match(rules.skip(1), method, path) {
            Some(i) => Some((i + 1) as nat),
            None => None,
        }
    }
}

/// Skipping rules that do not match leaves the first match, shifted.
proof fn lemma_first_match_skip(
    rules: Seq<(Method, MatcherSpec)>,
    method: Method,
    path: Seq<char>,
    i: int,
)
    requires
        0 <= i <= rules.len(),
        forall|j: int| 0 <= j < i ==> !rule_matches(#[trigger] rules[j], method, path),
    ensures
        first_match(rules, method, path) == match first_match(rules.skip(i), method, path) {
            Some(k) => Some((k + i) as nat),
            None => None::<nat>,
        },
    decreases i,
{
    if i == 0 {
        assert(rules.skip(0) =~= rules);
        match first_match(rules, method, path) {
            Some(k) => {
                assert(k + 0 == k);
            },
            None => {},
        }
    } else {
        assert(!rule_matches(rules[0], method, path));
        assert(forall|j: int|
            0 <= j < i - 1 ==> !rule_matches(#[trigger] rules.skip(1)[j], method, path));
        lemma_first_match_skip(rules.skip(1), method, path, i - 1);
        assert(rules.skip(1).skip(i - 1) =~= rules.skip(i));
    }
}

impl<T> Router<T> {
    /// The registered rules, in order: each one's method and matcher value.
    pub closed spec fn rules(&self) -> Seq<(Method, MatcherSpec)> {
        self.routes@.map_values(|r: RouteMatch<T>| (r.method, r.matcher@))
    }

    /// The handler registered at position `i`.
    pub closed spec fn handler_at(&self, i: int) -> T
        recommends
            0 <= i < self.rules().len(),
    {
        self.routes@[i].route
    }

    /// A router with no rules.
    pub fn new() -> (r: Router<T>)
        ensures
            r.rules() == Seq::<(Method, MatcherSpec)>::empty(),
    {
        let r = Router { routes: Vec::new() };
        assert(r.rules() =~= Seq::<(Method, MatcherSpec)>::empty());
        r
    }

    /// Register a rule after all earlier ones. Registration order is kept:
    /// the new rule is considered only after every rule already present.
    pub fn add<M: IntoRouteMatcher>(&mut self, method: Method, matcher: M, route: T)
        ensures
            final(self).rules() == old(self).rules().push((method, matcher.matcher_spec())),
            final(self).rules().len() == old(self).rules().len() + 1,
            forall|i: int|
                0 <= i < old(self).rules().len() ==> final(self).handler_at(i) == old(
                    self,
                ).handler_at(i),
            final(self).handler_at(old(self).rules().len() as int) == route,
    {
        let m = matcher.into_matcher();
        self.routes.push(RouteMatch { method, matcher: m, route });
        proof {
            assert(final(self).rules() =~= old(self).rules().push(
                (method, matcher.matcher_spec()),
            ));
        }
    }

    /// Register a rule for `GET`.
    pub fn get<M: IntoRouteMatcher>(&mut self, matcher: M, route: T)
        ensures
            final(self).rules() == old(self).rules().push((Method::Get, matcher.matcher_spec())),
            final(self).handler_at(old(self).rules().len() as int) == route,
            forall|i: int|
                0 <= i < old(self).rules().len() ==> final(self).handler_at(i) == old(
                    self,
                ).handler_at(i),
    {
        self.add(Method::Get, matcher, route)
    }

    /// Register a rule for `POST`.
    pub fn post<M: IntoRouteMatcher>(&mut self, matcher: M, route: T)
        ensures
            final(self).rules() == old(self).rules().push((Method::Post, matcher.matcher_spec())),
            final(self).handler_at(old(self).rules().len() as int) == route,
            forall|i: int|
                0 <= i < old(self).rules().len() ==> final(self).handler_at(i) == old(
                    self,
                ).handler_at(i),
    {
        self.add(Method::Post, matcher, route)
    }

    /// Register a rule for `PUT`.
    pub fn put<M: IntoRouteMatcher>(&mut self, matcher: M, route: T)
        ensures
            final(self).rules() == old(self).rules().push((Method::Put, matcher.matcher_spec())),
            final(self).handler_at(old(self).rules().len() as int) == route,
            forall|i: int|
                0 <= i < old(self).rules().len() ==> final(self).handler_at(i) == old(
                    self,
                ).handler_at(i),
    {
        self.add(Method::Put, matcher, route)
    }

    /// Register a rule for `DELETE`.
    pub fn delete<M: IntoRouteMatcher>(&mut self, matcher: M, route: T)
        ensures
            final(self).rules() == old(self).rules().push(
                (Method::Delete, matcher.matcher_spec()),
            ),
            final(self).handler_at(old(self).rules().len() as int) == route,
            forall|i: int|
                0 <= i < old(self).rules().len() ==> final(self).handler_at(i) == old(
                    self,
                ).handler_at(i),
    {
        self.add(Method::Delete, matcher, route)
    }

    /// Find the earliest-registered rule whose method and matcher both
    /// accept the request: that rule's handler, with the parameters its
    /// matcher extracted. Over an empty rule set, or when no rule matches,
    /// there is no match — the caller answers, never the router itself.
    pub fn resolve(&self, method: Method, path: &str) -> (r: Option<(&T, RouteParams)>)
        ensures
            match first_match(self.rules(), method, path@) {
                Some(i) => r is Some && *r->Some_0.0 == self.handler_at(i as int) && Some(
                    r->Some_0.1@,
                ) == match_params(self.rules()[i as int].1, path@),
                None => r is None,
            },
    {
        let ghost rules = self.rules();
        let mut i: usize = 0;
        while i < self.routes.len()
            invariant
                0 <= i <= self.routes@.len(),
                rules == self.rules(),
                rules.len() == self.routes@.len(),
                forall|j: int| 0 <= j < i ==> !rule_matches(#[trigger] rules[j], method, path@),
            decreases self.routes@.len() - i,
        {
            let rule = &self.routes[i];
            assert(rules[i as int] == (rule.method, rule.matcher@));
            if rule.method == method {
                match rule.matcher.get_match(path) {
                    Some(params) => {
                        proof {
                            assert(rule_matches(rules[i as int], method, path@));
                            lemma_first_match_skip(rules, method, path@, i as int);
                            assert(rules.skip(i as int)[0] == rules[i as int]);
                            assert(first_match(rules.skip(i as int), method, path@) == Some(0nat));
                        }
                        return Some((&rule.route, params));
                    },
                    None => {
                        assert(!rule_matches(rules[i as int], method, path@));
                    },
                }
            } else {
                assert(!rule_matches(rules[i as int], method, path@));
            }
            i = i + 1;
        }
        proof {
            lemma_first_match_skip(rules, method, path@, rules.len() as int);
            assert(rules.skip(rules.len() as int) =~= Seq::<(Method, MatcherSpec)>::empty());
        }
        None
    }
}

impl<T: RouteHandler> Router<T> {
    /// Run the router as one middleware stage: resolve the request and
    /// delegate to the matched handler; on no match, write a generic
    /// not-found response, leaving the response `Done`.
    pub fn exec_route(
        &self,
        ctx: &mut T::Context,
        req: Request,
        res: Response,
    ) -> (r: (Request, Response))
        ensures
            first_match(self.rules(), req@.method(), req@.path()) is None ==> r.0@ == req@ && r.1@
                == crate::http::write_body(res@, "Not Found"@),
    {
        let method = req.method();
        let resolved = self.resolve(method, req.url().as_str());
        match resolved {
            Some((handler, params)) => handler.route(ctx, req, res, params),
            None => {
                let res = res.text("Not Found");
                (req, res)
            },
        }
    }
}

impl<T: RouteHandler> Middleware for Router<T> {
    type Context = T::Context;

    fn exec(&self, ctx: &mut T::Context, req: Request, res: Response) -> (r: (Request, Response))
        ensures
            first_match(self.rules(), req@.method(), req@.path()) is None ==> r.0@ == req@ && r.1@
                == crate::http::write_body(res@, "Not Found"@),
    {
        self.exec_route(ctx, req, res)
    }
}

} // verus!
