//! The middleware pipeline: an ordered list of stages, each run once per
//! request, stopped at the first response that reaches `Done`; and the
//! server front that drives one request through it.

use vstd::prelude::*;

use crate::http::{target_accepted, Method, Request, RespView, Response};

verus! {

/// One pipeline stage: observes the per-request context and the live
/// request/response pair, and returns their replacements.
pub trait Middleware {
    /// The per-request context the stage works with.
    type Context;

    /// Run the stage once for one request.
    fn exec(&self, ctx: &mut Self::Context, req: Request, res: Response) -> (Request, Response);
}

/// A stage that only observes the request and passes both values through
/// unchanged.
pub struct LogMiddleware<C> {
    _phantom: core::marker::PhantomData<C>,
}

impl<C> LogMiddleware<C> {
    /// A fresh pass-through stage.
    pub fn new() -> LogMiddleware<C> {
        LogMiddleware { _phantom: core::marker::PhantomData }
    }
}

impl<C> Middleware for LogMiddleware<C> {
    type Context = C;

    /// A pure observer: both values come back unchanged.
    fn exec(&self, ctx: &mut C, req: Request, res: Response) -> (r: (Request, Response))
        ensures
            r.0@ == req@ && r.1@ == res@,
    {
        (req, res)
    }
}

/// Drive one request through the stages, strictly in order, each at most
/// once. The pipeline stops as soon as the response is `Done`: no stage is
/// invoked after that. Returns the final pair and how many stages ran.
pub fn run_pipeline<M: Middleware>(
    stages: &Vec<M>,
    ctx: &mut M::Context,
    req: Request,
    res: Response,
) -> (r: (Request, Response, usize))
    ensures
        r.2 <= stages@.len(),
        r.2 < stages@.len() ==> r.1@.is_done(),
        res@.is_done() ==> r.2 == 0 && r.0@ == req@ && r.1@ == res@,
        stages@.len() > 0 && !res@.is_done() ==> r.2 >= 1,
        r.2 == 0 ==> r.0@ == req@ && r.1@ == res@,
{
    let ghost req0 = req@;
    let ghost res0 = res@;
    let mut req = req;
    let mut res = res;
    let mut i: usize = 0;
    while i < stages.len()
        invariant_except_break
            0 <= i <= stages@.len(),
            i == 0 ==> req@ == req0 && res@ == res0,
            i > 0 ==> !res0.is_done(),
        ensures
            0 <= i <= stages@.len(),
            i < stages@.len() ==> res@.is_done(),
            res0.is_done() ==> i == 0 && req@ == req0 && res@ == res0,
            stages@.len() > 0 && !res0.is_done() ==> i >= 1,
            i == 0 ==> req@ == req0 && res@ == res0,
        decreases stages@.len() - i,
    {
        if res.is_done() {
            break;
        }
        let stage_out = stages[i].exec(ctx, req, res);
        req = stage_out.0;
        res = stage_out.1;
        i = i + 1;
    }
    (req, res, i)
}

/// Builds the per-request context, once per accepted request.
pub trait ContextFactory {
    /// The context this factory builds.
    type Context;

    /// A fresh context for one request.
    fn get(&self) -> Self::Context;
}

/// The server front: a context factory and an ordered middleware list. The
/// transport itself (sockets, reading, sending) lives outside; this drives
/// one already-received request to exactly one finished response.
pub struct WebServer<F: ContextFactory, M: Middleware<Context = F::Context>> {
    factory: F,
    middleware: Vec<M>,
}

impl<F: ContextFactory, M: Middleware<Context = F::Context>> WebServer<F, M> {
    /// The registered stages, in order.
    pub closed spec fn stages(&self) -> Seq<M> {
        self.middleware@
    }

    /// A server with no stages yet.
    pub fn new(factory: F) -> (r: WebServer<F, M>)
        ensures
            r.stages() == Seq::<M>::empty(),
    {
        let r = WebServer { factory, middleware: Vec::new() };
        assert(r.stages() =~= Seq::<M>::empty());
        r
    }

    /// Register one more stage, after all earlier ones.
    pub fn middleware(&mut self, stage: M)
        ensures
            final(self).stages() == old(self).stages().push(stage),
    {
        self.middleware.push(stage);
    }

    /// Handle one request: build a fresh request from the raw method,
    /// target and unread transport content, drive it through the pipeline,
    /// and finalize. A target that is not an absolute path is answered with
    /// a generic bad-request response before any stage runs; an accepted
    /// target runs the first stage at least, and where there is no stage to
    /// run, the connection is still finalized with an empty response. In
    /// every case exactly one finished response comes back, with the number
    /// of stages that ran.
    pub fn handle(&self, method: Method, target: &str, pending: String) -> (r: (Response, usize))
        ensures
            r.0@.is_done(),
            r.1 <= self.stages().len(),
            !target_accepted(target@) ==> r.1 == 0 && r.0@ == (RespView::Done {
                wire: "Bad Request"@,
            }),
            target_accepted(target@) && self.stages().len() == 0 ==> r.1 == 0 && r.0@ == (
            RespView::Done { wire: Seq::<char>::empty() }),
            target_accepted(target@) && self.stages().len() > 0 ==> r.1 >= 1,
    {
        match Request::new(method, target, pending) {
            None => {
                let res = Response::Fresh.text("Bad Request");
                (res, 0)
            },
            Some(req) => {
                let mut ctx = self.factory.get();
                let out = run_pipeline(&self.middleware, &mut ctx, req, Response::Fresh);
                let res = out.1;
                let n = out.2;
                if res.is_done() {
                    (res, n)
                } else {
                    proof {
                        reveal_strlit("");
                        assert(""@ =~= Seq::<char>::empty());
                    }
                    (res.text(""), n)
                }
            },
        }
    }
}

} // verus!
