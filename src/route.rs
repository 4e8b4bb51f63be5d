use vstd::prelude::*;

use crate::path::{build_paths, compile, match_segments, path_matches, HTTPPath, SegmentPattern};
use crate::request::{HTTPContext, HTTPMethod};
use crate::response::{not_found_view, HttpResponse, ResponseView};

verus! {

/// A request as handlers and hooks see it.
pub struct HTTPRequest {
    pub context: HTTPContext,
}

/// What a pre-hook decides: go on, or end the mapping with its own response.
pub enum PreRequestMiddlewareResult {
    Next,
    End(HttpResponse),
}

/// What a post-hook decides: replace the response and go on, or end with it.
pub enum PostRequestMiddlewareResult {
    Next(HttpResponse),
    End(HttpResponse),
}

/// Runs before a mapping's handler.
pub trait PreRequestMiddleware {
    fn handle(&self, request: &HTTPRequest) -> PreRequestMiddlewareResult;
}

/// Runs after a mapping's handler, on the response so far.
pub trait PostRequestMiddleware {
    fn handle(&self, request: &HTTPRequest, response: &HttpResponse) -> PostRequestMiddlewareResult;
}

/// Answers a request that a mapping matched.
pub trait RequestHandler {
    fn call(&self, request: &HTTPRequest) -> HttpResponse;
}

/// What a mapping's run asks for next.
#[derive(Debug, Clone, Copy, PartialEq, Eq, Structural)]
pub enum PipelineStep {
    RunPre(usize),
    RunHandler,
    RunPost(usize),
    Finished,
}

/// The run of one mapping: its pre-hooks in order, then its handler, then its
/// post-hooks in order, each of which may end the run early.
pub struct Pipeline {
    pre_count: usize,
    post_count: usize,
    has_handler: bool,
    step: PipelineStep,
    response: Option<HttpResponse>,
}

/// The state of a run, as plain values.
pub struct PipelineView {
    pub pre_count: nat,
    pub post_count: nat,
    pub has_handler: bool,
    pub step: PipelineStep,
    pub response: Option<ResponseView>,
}

impl View for Pipeline {
    type V = PipelineView;

    closed spec fn view(&self) -> PipelineView {
        PipelineView {
            pre_count: self.pre_count as nat,
            post_count: self.post_count as nat,
            has_handler: self.has_handler,
            step: self.step,
            response: match self.response {
                Some(r) => Some(r@),
                None => None,
            },
        }
    }
}

/// The step that comes after the pre-hooks from `i` on: the next pre-hook, else the
/// handler, else the end.
pub open spec fn step_from_pre(i: nat, pre_count: nat, has_handler: bool) -> PipelineStep {
    if i < pre_count {
        PipelineStep::RunPre(i as usize)
    } else if has_handler {
        PipelineStep::RunHandler
    } else {
        PipelineStep::Finished
    }
}

pub open spec fn step_from_post(j: nat, post_count: nat) -> PipelineStep {
    if j < post_count {
        PipelineStep::RunPost(j as usize)
    } else {
        PipelineStep::Finished
    }
}

/// A run of a mapping that has no handler does nothing; otherwise it starts with the
/// first pre-hook, or the handler when there is none.
pub open spec fn start_view(pre_count: nat, post_count: nat, has_handler: bool) -> PipelineView {
    PipelineView {
        pre_count,
        post_count,
        has_handler,
        step: if has_handler {
            step_from_pre(0, pre_count, true)
        } else {
            PipelineStep::Finished
        },
        response: None,
    }
}

/// After pre-hook `i`: `End` finishes the run with its response; `Next` goes on.
pub open spec fn after_pre(v: PipelineView, ended: Option<ResponseView>) -> PipelineView {
    match (v.step, ended) {
        (PipelineStep::RunPre(i), Some(r)) => PipelineView {
            step: PipelineStep::Finished,
            response: Some(r),
            ..v
        },
        (PipelineStep::RunPre(i), None) => PipelineView {
            step: step_from_pre((i + 1) as nat, v.pre_count, v.has_handler),
            ..v
        },
        _ => v,
    }
}

/// After the handler: its response is the response so far; the post-hooks follow.
pub open spec fn after_handler(v: PipelineView, r: ResponseView) -> PipelineView {
    PipelineView { step: step_from_post(0, v.post_count), response: Some(r), ..v }
}

/// After post-hook `j`: its response replaces the one so far; `End` finishes the run.
pub open spec fn after_post(v: PipelineView, r: ResponseView, end: bool) -> PipelineView {
    match v.step {
        PipelineStep::RunPost(j) => PipelineView {
            step: if end {
                PipelineStep::Finished
            } else {
                step_from_post((j + 1) as nat, v.post_count)
            },
            response: Some(r),
            ..v
        },
        _ => v,
    }
}

/// The states a run can be in.
pub open spec fn pipeline_wf(v: PipelineView) -> bool {
    &&& match v.step {
        PipelineStep::RunPre(i) => i < v.pre_count && v.has_handler && v.response is None,
        PipelineStep::RunHandler => v.has_handler && v.response is None,
        PipelineStep::RunPost(j) => j < v.post_count && v.has_handler && v.response is Some,
        PipelineStep::Finished => v.has_handler <==> v.response is Some,
    }
}

/// How much of a run is left.
pub open spec fn steps_left(v: PipelineView) -> nat {
    match v.step {
        PipelineStep::RunPre(i) => (v.pre_count - i) as nat + 1 + v.post_count + 1,
        PipelineStep::RunHandler => v.post_count + 1,
        PipelineStep::RunPost(j) => (v.post_count - j) as nat,
        PipelineStep::Finished => 0,
    }
}

/// A pre-hook that ends the run finishes it at once with its own response, so the
/// handler and the later hooks never run.
pub proof fn lemma_pre_end_skips_handler(v: PipelineView, r: ResponseView)
    requires
        pipeline_wf(v),
        v.step is RunPre,
    ensures
        after_pre(v, Some(r)).step == PipelineStep::Finished,
        after_pre(v, Some(r)).response == Some(r),
        pipeline_wf(after_pre(v, Some(r))),
{
}

/// The handler runs only once every pre-hook has said `Next`: the step that asks
/// for it comes from the last pre-hook's `Next`, or from the start when there are
/// no pre-hooks.
pub proof fn lemma_handler_follows_all_pre(v: PipelineView, ended: Option<ResponseView>)
    requires
        pipeline_wf(v),
        v.step is RunPre,
        after_pre(v, ended).step == PipelineStep::RunHandler,
    ensures
        ended is None,
        v.step == PipelineStep::RunPre((v.pre_count - 1) as usize),
{
}

/// A post-hook that ends the run makes its response the run's result; the later
/// post-hooks never run.
pub proof fn lemma_post_end_is_final(v: PipelineView, r: ResponseView)
    requires
        pipeline_wf(v),
        v.step is RunPost,
    ensures
        after_post(v, r, true).step == PipelineStep::Finished,
        after_post(v, r, true).response == Some(r),
        pipeline_wf(after_post(v, r, true)),
{
}

/// A mapping without a handler never yields a response.
pub proof fn lemma_no_handler_no_response(pre_count: nat, post_count: nat)
    ensures
        start_view(pre_count, post_count, false).step == PipelineStep::Finished,
        start_view(pre_count, post_count, false).response is None,
{
}

impl Pipeline {
    /// A run over `pre_count` pre-hooks and `post_count` post-hooks.
    pub fn start(pre_count: usize, post_count: usize, has_handler: bool) -> (r: Pipeline)
        ensures
            r@ == start_view(pre_count as nat, post_count as nat, has_handler),
            pipeline_wf(r@),
    {
        let step = if !has_handler {
            PipelineStep::Finished
        } else if pre_count > 0 {
            PipelineStep::RunPre(0)
        } else {
            PipelineStep::RunHandler
        };
        Pipeline { pre_count, post_count, has_handler, step, response: None }
    }

    /// What the run asks for next.
    pub fn next_step(&self) -> (r: PipelineStep)
        ensures
            r == self@.step,
    {
        self.step
    }

    /// The response so far.
    pub fn current(&self) -> (r: &HttpResponse)
        requires
            self@.response is Some,
        ensures
            Some(r@) == self@.response,
    {
        self.response.as_ref().unwrap()
    }

    /// Takes what the pre-hook the run asked for returned.
    pub fn pre_done(&mut self, result: PreRequestMiddlewareResult)
        requires
            pipeline_wf(old(self)@),
            old(self)@.step is RunPre,
        ensures
            final(self)@ == after_pre(
                old(self)@,
                match result {
                    PreRequestMiddlewareResult::End(r) => Some(r@),
                    PreRequestMiddlewareResult::Next => None,
                },
            ),
            pipeline_wf(final(self)@),
            steps_left(final(self)@) < steps_left(old(self)@),
    {
        let i = match self.step {
            PipelineStep::RunPre(i) => i,
            _ => 0,
        };
        match result {
            PreRequestMiddlewareResult::End(r) => {
                self.step = PipelineStep::Finished;
                self.response = Some(r);
            },
            PreRequestMiddlewareResult::Next => {
                self.step =
                    if i + 1 < self.pre_count {
                        PipelineStep::RunPre(i + 1)
                    } else if self.has_handler {
                        PipelineStep::RunHandler
                    } else {
                        PipelineStep::Finished
                    };
            },
        }
    }

    /// Takes the handler's response.
    pub fn handler_done(&mut self, response: HttpResponse)
        requires
            pipeline_wf(old(self)@),
            old(self)@.step == PipelineStep::RunHandler,
        ensures
            final(self)@ == after_handler(old(self)@, response@),
            pipeline_wf(final(self)@),
            steps_left(final(self)@) < steps_left(old(self)@),
    {
        self.step =
            if self.post_count > 0 {
                PipelineStep::RunPost(0)
            } else {
                PipelineStep::Finished
            };
        self.response = Some(response);
    }

    /// Takes what the post-hook the run asked for returned.
    pub fn post_done(&mut self, result: PostRequestMiddlewareResult)
        requires
            pipeline_wf(old(self)@),
            old(self)@.step is RunPost,
        ensures
            final(self)@ == match result {
                PostRequestMiddlewareResult::Next(r) => after_post(old(self)@, r@, false),
                PostRequestMiddlewareResult::End(r) => after_post(old(self)@, r@, true),
            },
            pipeline_wf(final(self)@),
            steps_left(final(self)@) < steps_left(old(self)@),
    {
        let j = match self.step {
            PipelineStep::RunPost(j) => j,
            _ => 0,
        };
        match result {
            PostRequestMiddlewareResult::Next(r) => {
                self.step =
                    if j + 1 < self.post_count {
                        PipelineStep::RunPost(j + 1)
                    } else {
                        PipelineStep::Finished
                    };
                self.response = Some(r);
            },
            PostRequestMiddlewareResult::End(r) => {
                self.step = PipelineStep::Finished;
                self.response = Some(r);
            },
        }
    }

    /// The result of a finished run.
    pub fn finish(self) -> (r: Option<HttpResponse>)
        ensures
            match r {
                Some(resp) => self@.response == Some(resp@),
                None => self@.response is None,
            },
    {
        self.response
    }
}

/// The hooks of a mapping, in the order they were added.
pub struct RouteMiddleware<Pre, Post> {
    pub pre_request_handlers: Vec<Pre>,
    pub post_request_handlers: Vec<Post>,
}

/// One registered route: an optional method filter, a compiled path, an optional
/// handler and its hooks.
pub struct RouteMapping<H, Pre, Post> {
    method: Option<HTTPMethod>,
    segments: Vec<HTTPPath>,
    handler: Option<H>,
    middleware: RouteMiddleware<Pre, Post>,
}

/// What a mapping holds, as plain values.
pub struct MappingView<H, Pre, Post> {
    pub method: Option<HTTPMethod>,
    pub segments: Seq<SegmentPattern>,
    pub handler: Option<H>,
    pub pre: Seq<Pre>,
    pub post: Seq<Post>,
}

impl<H, Pre, Post> View for RouteMapping<H, Pre, Post> {
    type V = MappingView<H, Pre, Post>;

    closed spec fn view(&self) -> MappingView<H, Pre, Post> {
        MappingView {
            method: self.method,
            segments: self.segments@.map_values(|p: HTTPPath| p@),
            handler: self.handler,
            pre: self.middleware.pre_request_handlers@,
            post: self.middleware.post_request_handlers@,
        }
    }
}

/// The method filter lets `method` through: it is absent or equal.
pub open spec fn method_matches(filter: Option<HTTPMethod>, method: HTTPMethod) -> bool {
    match filter {
        Some(m) => m == method,
        None => true,
    }
}

/// A mapping matches a request when its method filter and its path both do.
pub open spec fn mapping_matches<H, Pre, Post>(
    m: MappingView<H, Pre, Post>,
    path: Seq<char>,
    method: HTTPMethod,
) -> bool {
    method_matches(m.method, method) && path_matches(m.segments, path)
}

impl<H, Pre, Post> RouteMapping<H, Pre, Post> {
    /// A mapping with a handler and no hooks.
    pub fn new(method: Option<HTTPMethod>, path: &str, handler: H) -> (r: Self)
        ensures
            r@ == (MappingView::<H, Pre, Post> {
                method,
                segments: compile(path@),
                handler: Some(handler),
                pre: Seq::empty(),
                post: Seq::empty(),
            }),
    {
        let r = RouteMapping {
            method,
            segments: build_paths(path),
            handler: Some(handler),
            middleware: RouteMiddleware {
                pre_request_handlers: Vec::new(),
                post_request_handlers: Vec::new(),
            },
        };
        assert(r@.pre =~= Seq::empty());
        assert(r@.post =~= Seq::empty());
        r
    }

    /// A mapping for any method with neither handler nor hooks, to carry hooks.
    pub fn from_path(path: &str) -> (r: Self)
        ensures
            r@ == (MappingView::<H, Pre, Post> {
                method: None,
                segments: compile(path@),
                handler: None,
                pre: Seq::empty(),
                post: Seq::empty(),
            }),
    {
        let r = RouteMapping {
            method: None,
            segments: build_paths(path),
            handler: None,
            middleware: RouteMiddleware {
                pre_request_handlers: Vec::new(),
                post_request_handlers: Vec::new(),
            },
        };
        assert(r@.pre =~= Seq::empty());
        assert(r@.post =~= Seq::empty());
        r
    }

    /// Adds a post-hook after those already there.
    pub fn add_post_request_middleware(&mut self, post_request: Post)
        ensures
            final(self)@ == (MappingView { post: old(self)@.post.push(post_request), ..old(self)@ }),
    {
        self.middleware.post_request_handlers.push(post_request);
    }

    /// Adds a pre-hook after those already there.
    pub fn add_pre_request_middleware(&mut self, pre_request: Pre)
        ensures
            final(self)@ == (MappingView { pre: old(self)@.pre.push(pre_request), ..old(self)@ }),
    {
        self.middleware.pre_request_handlers.push(pre_request);
    }

    /// Whether the method filter lets `method` through.
    pub fn match_method(&self, method: &HTTPMethod) -> (r: bool)
        ensures
            r == method_matches(self@.method, *method),
    {
        match &self.method {
            Some(m) => *m == *method,
            None => true,
        }
    }

    /// Whether a request path matches the mapping's compiled path.
    pub fn match_path(&self, path: &str) -> (r: bool)
        ensures
            r == path_matches(self@.segments, path@),
    {
        match_segments(&self.segments, path)
    }

    /// Whether the mapping matches a request with this path and method.
    pub fn match_full(&self, path: &str, method: &HTTPMethod) -> (r: bool)
        ensures
            r == mapping_matches(self@, path@, *method),
    {
        if !self.match_method(method) {
            return false;
        }
        self.match_path(path)
    }

    /// Whether the mapping has a handler.
    pub fn has_handler(&self) -> (r: bool)
        ensures
            r == self@.handler is Some,
    {
        self.handler.is_some()
    }
}

impl<H: RequestHandler, Pre: PreRequestMiddleware, Post: PostRequestMiddleware> RouteMapping<
    H,
    Pre,
    Post,
> {
    /// Runs the mapping on a request: pre-hooks, handler, post-hooks, each step as
    /// the mapping's `Pipeline` decides. A mapping without a handler yields nothing;
    /// one with a handler always yields a response.
    pub fn handle(&self, request: &HTTPRequest) -> (r: Option<HttpResponse>)
        ensures
            r is Some <==> self@.handler is Some,
    {
        let pre = &self.middleware.pre_request_handlers;
        let post = &self.middleware.post_request_handlers;
        let mut run = Pipeline::start(pre.len(), post.len(), self.handler.is_some());
        loop
            invariant
                pipeline_wf(run@),
                run@.pre_count == pre@.len(),
                run@.post_count == post@.len(),
                run@.has_handler == self.handler is Some,
                pre == &self.middleware.pre_request_handlers,
                post == &self.middleware.post_request_handlers,
            decreases steps_left(run@),
        {
            match run.next_step() {
                PipelineStep::RunPre(i) => {
                    let result = pre[i].handle(request);
                    run.pre_done(result);
                },
                PipelineStep::RunHandler => {
                    match &self.handler {
                        Some(h) => {
                            let response = h.call(request);
                            run.handler_done(response);
                        },
                        None => {
                            proof {
                                assert(false);
                            }
                        },
                    }
                },
                PipelineStep::RunPost(j) => {
                    let result = post[j].handle(request, run.current());
                    run.post_done(result);
                },
                PipelineStep::Finished => {
                    return run.finish();
                },
            }
        }
    }
}

/// The position of the first mapping whose path matches `path`, whatever its method.
pub open spec fn first_path_match<H, Pre, Post>(
    routes: Seq<MappingView<H, Pre, Post>>,
    path: Seq<char>,
) -> Option<int>
    decreases routes.len(),
{
    if routes.len() == 0 {
        None
    } else {
        match first_path_match(routes.drop_last(), path) {
            Some(i) => Some(i),
            None => if path_matches(routes.last().segments, path) {
                Some(routes.len() - 1)
            } else {
                None
            },
        }
    }
}

/// The positions of the mappings that match a request, in registration order.
pub open spec fn matching_indices<H, Pre, Post>(
    routes: Seq<MappingView<H, Pre, Post>>,
    path: Seq<char>,
    method: HTTPMethod,
) -> Seq<int>
    decreases routes.len(),
{
    if routes.len() == 0 {
        Seq::empty()
    } else {
        let p = matching_indices(routes.drop_last(), path, method);
        if mapping_matches(routes.last(), path, method) {
            p.push(routes.len() - 1)
        } else {
            p
        }
    }
}

pub open spec fn response_view_of(o: Option<HttpResponse>) -> Option<ResponseView> {
    match o {
        Some(r) => Some(r@),
        None => None,
    }
}

/// The last response among the outcomes of the matched mappings; the `404` when
/// none yielded one.
pub open spec fn last_response(outs: Seq<Option<ResponseView>>) -> ResponseView
    decreases outs.len(),
{
    if outs.len() == 0 {
        not_found_view()
    } else {
        match outs.last() {
            Some(r) => r,
            None => last_response(outs.drop_last()),
        }
    }
}

/// Outcomes that hold no response give the `404`.
pub proof fn lemma_no_outcome_not_found(outs: Seq<Option<ResponseView>>)
    requires
        forall|k: int| 0 <= k < outs.len() ==> (#[trigger] outs[k]) is None,
    ensures
        last_response(outs) == not_found_view(),
    decreases outs.len(),
{
    if outs.len() > 0 {
        assert(outs[outs.len() - 1] is None);
        let t = outs.drop_last();
        assert forall|k: int| 0 <= k < t.len() implies (#[trigger] t[k]) is None by {
            assert(t[k] == outs[k]);
        }
        lemma_no_outcome_not_found(t);
    }
}

/// The final answer from the outcomes of the matched mappings, taken in
/// registration order: the last response, or a `404` with no headers and no body.
pub fn final_response(outcomes: Vec<Option<HttpResponse>>) -> (r: HttpResponse)
    ensures
        r@ == last_response(outcomes@.map_values(|o: Option<HttpResponse>| response_view_of(o))),
{
    let ghost all = outcomes@.map_values(|o: Option<HttpResponse>| response_view_of(o));
    let mut rest = outcomes;
    while rest.len() > 0
        invariant
            all == outcomes@.map_values(|o: Option<HttpResponse>| response_view_of(o)),
            last_response(all) == last_response(
                rest@.map_values(|o: Option<HttpResponse>| response_view_of(o)),
            ),
        decreases rest.len(),
    {
        let ghost before = rest@.map_values(|o: Option<HttpResponse>| response_view_of(o));
        assert(before.len() > 0);
        let o = rest.pop().unwrap();
        assert(rest@.map_values(|o: Option<HttpResponse>| response_view_of(o)) =~= before.drop_last());
        assert(before.last() == response_view_of(o));
        match o {
            Some(r) => {
                assert(last_response(before) == r@);
                return r;
            },
            None => {},
        }
    }
    assert(rest@.map_values(|o: Option<HttpResponse>| response_view_of(o)) =~= Seq::<
        Option<ResponseView>,
    >::empty());
    HttpResponse::not_found()
}

/// The registered mappings, in registration order.
pub struct Router<H, Pre, Post> {
    routes: Vec<RouteMapping<H, Pre, Post>>,
}

impl<H, Pre, Post> View for Router<H, Pre, Post> {
    type V = Seq<MappingView<H, Pre, Post>>;

    closed spec fn view(&self) -> Seq<MappingView<H, Pre, Post>> {
        self.routes@.map_values(|m: RouteMapping<H, Pre, Post>| m@)
    }
}

impl<H, Pre, Post> Default for Router<H, Pre, Post> {
    fn default() -> (r: Self)
        ensures
            r@ == Seq::<MappingView<H, Pre, Post>>::empty(),
    {
        Router::new()
    }
}

impl<H, Pre, Post> Router<H, Pre, Post> {
    /// A router with no mappings.
    pub fn new() -> (r: Self)
        ensures
            r@ == Seq::<MappingView<H, Pre, Post>>::empty(),
    {
        let r = Router { routes: Vec::new() };
        assert(r@ =~= Seq::<MappingView<H, Pre, Post>>::empty());
        r
    }

    /// Registers `handler` for `method` and `path`, after the mappings already there.
    pub fn route(&mut self, method: HTTPMethod, path: &str, handler: H)
        ensures
            final(self)@ == old(self)@.push(
                MappingView {
                    method: Some(method),
                    segments: compile(path@),
                    handler: Some(handler),
                    pre: Seq::empty(),
                    post: Seq::empty(),
                },
            ),
    {
        let ghost prev = self@;
        let m = RouteMapping::new(Some(method), path, handler);
        self.routes.push(m);
        assert(self@ =~= prev.push(m@));
    }

    /// Appends the mappings of `router` after those already here.
    pub fn nest(&mut self, router: Router<H, Pre, Post>)
        ensures
            final(self)@ == old(self)@ + router@,
    {
        let ghost prev = self@;
        let mut other = router.routes;
        self.routes.append(&mut other);
        assert(self@ =~= prev + router@);
    }

    /// Adds a pre-hook to the first mapping whose path matches `path`, or, when none
    /// does, to a new mapping for `path` without a handler.
    #[verifier::spinoff_prover]
    pub fn before(&mut self, path: &str, middleware: Pre)
        ensures
            match first_path_match(old(self)@, path@) {
                Some(i) => final(self)@ == old(self)@.update(
                    i,
                    MappingView { pre: old(self)@[i].pre.push(middleware), ..old(self)@[i] },
                ),
                None => final(self)@ == old(self)@.push(
                    MappingView {
                        method: None,
                        segments: compile(path@),
                        handler: None,
                        pre: seq![middleware],
                        post: Seq::empty(),
                    },
                ),
            },
    {
        let ghost prev = self@;
        match self.find_path(path) {
            Some(i) => {
                assert(self@[i as int] == self.routes@[i as int]@);
                let mut m = self.routes.remove(i);
                assert(m@ == prev[i as int]);
                m.add_pre_request_middleware(middleware);
                let ghost mv = m@;
                assert(mv == MappingView { pre: prev[i as int].pre.push(middleware), ..prev[i as int] });
                self.routes.insert(i, m);
                assert(self@ =~= prev.update(i as int, mv));
                assert(self@ =~= prev.update(
                    i as int,
                    MappingView { pre: prev[i as int].pre.push(middleware), ..prev[i as int] },
                ));
            },
            None => {
                let mut m = RouteMapping::from_path(path);
                m.add_pre_request_middleware(middleware);
                self.routes.push(m);
                assert(self@ =~= prev.push(m@));
                assert(m@.pre =~= seq![middleware]);
            },
        }
    }

    /// Adds a post-hook to the first mapping whose path matches `path`, or, when
    /// none does, to a new mapping for `path` without a handler.
    #[verifier::spinoff_prover]
    pub fn after(&mut self, path: &str, middleware: Post)
        ensures
            match first_path_match(old(self)@, path@) {
                Some(i) => final(self)@ == old(self)@.update(
                    i,
                    MappingView { post: old(self)@[i].post.push(middleware), ..old(self)@[i] },
                ),
                None => final(self)@ == old(self)@.push(
                    MappingView {
                        method: None,
                        segments: compile(path@),
                        handler: None,
                        pre: Seq::empty(),
                        post: seq![middleware],
                    },
                ),
            },
    {
        let ghost prev = self@;
        match self.find_path(path) {
            Some(i) => {
                assert(self@[i as int] == self.routes@[i as int]@);
                let mut m = self.routes.remove(i);
                assert(m@ == prev[i as int]);
                m.add_post_request_middleware(middleware);
                let ghost mv = m@;
                assert(mv == MappingView { post: prev[i as int].post.push(middleware), ..prev[i as int] });
                self.routes.insert(i, m);
                assert(self@ =~= prev.update(i as int, mv));
                assert(self@ =~= prev.update(
                    i as int,
                    MappingView { post: prev[i as int].post.push(middleware), ..prev[i as int] },
                ));
            },
            None => {
                let mut m = RouteMapping::from_path(path);
                m.add_post_request_middleware(middleware);
                self.routes.push(m);
                assert(self@ =~= prev.push(m@));
                assert(m@.post =~= seq![middleware]);
            },
        }
    }

    /// The position of the first mapping whose path matches `path`.
    pub fn find_path(&self, path: &str) -> (r: Option<usize>)
        ensures
            match first_path_match(self@, path@) {
                Some(i) => r == Some(i as usize) && 0 <= i < self@.len(),
                None => r is None,
            },
    {
        let mut i: usize = 0;
        while i < self.routes.len()
            invariant
                i <= self@.len(),
                first_path_match(self@.take(i as int), path@) is None,
            decreases self.routes.len() - i,
        {
            assert(self@.take(i + 1).drop_last() =~= self@.take(i as int));
            if self.routes[i].match_path(path) {
                proof {
                    lemma_first_path_match_extends(self@, path@, i as int + 1);
                }
                return Some(i);
            }
            i = i + 1;
        }
        assert(self@.take(i as int) =~= self@);
        None
    }

    /// The positions of the mappings that match a request with this path and
    /// method, in registration order.
    pub fn get_handlers(&self, path: &str, method: &HTTPMethod) -> (r: Vec<usize>)
        ensures
            r@.map_values(|i: usize| i as int) == matching_indices(self@, path@, *method),
            forall|k: int| 0 <= k < r@.len() ==> (#[trigger] r@[k] as int) < self@.len(),
    {
        let mut r: Vec<usize> = Vec::new();
        let mut i: usize = 0;
        while i < self.routes.len()
            invariant
                i <= self@.len(),
                r@.map_values(|i: usize| i as int) == matching_indices(
                    self@.take(i as int),
                    path@,
                    *method,
                ),
                forall|k: int| 0 <= k < r@.len() ==> (#[trigger] r@[k] as int) < i,
            decreases self.routes.len() - i,
        {
            assert(self@[i as int] == self.routes@[i as int]@);
            assert(self@.take(i + 1).drop_last() =~= self@.take(i as int));
            assert(self@.take(i + 1).last() == self@[i as int]);
            let ghost prev = r@.map_values(|i: usize| i as int);
            if self.routes[i].match_full(path, method) {
                r.push(i);
                assert(r@.map_values(|i: usize| i as int) =~= prev.push(i as int));
            }
            i = i + 1;
        }
        assert(self@.take(i as int) =~= self@);
        r
    }

    /// The number of mappings.
    pub fn len(&self) -> (r: usize)
        ensures
            r == self@.len(),
    {
        self.routes.len()
    }
}

impl<H: RequestHandler, Pre: PreRequestMiddleware, Post: PostRequestMiddleware> Router<
    H,
    Pre,
    Post,
> {
    /// Answers a request: every matching mapping runs, in registration order, and the
    /// last response one of them yields is the answer; with none, a `404` with no
    /// headers and no body. A matched mapping yields a response exactly when it has
    /// a handler.
    pub fn handle(&self, context: HTTPContext) -> (r: HttpResponse)
        ensures
            exists|outs: Seq<Option<ResponseView>>|
                {
                    &&& #[trigger] last_response(outs) == r@
                    &&& outs.len() == matching_indices(self@, context.path@, context.method).len()
                    &&& forall|k: int|
                        0 <= k < outs.len() ==> ((#[trigger] outs[k]) is Some <==> self@[matching_indices(
                            self@,
                            context.path@,
                            context.method,
                        )[k]].handler is Some)
                },
            (forall|k: int|
                0 <= k < matching_indices(self@, context.path@, context.method).len()
                    ==> self@[#[trigger] matching_indices(self@, context.path@, context.method)[k]].handler is None)
                ==> r@ == not_found_view(),
    {
        let handlers = self.get_handlers(context.path.as_str(), &context.method);
        let ghost matched = matching_indices(self@, context.path@, context.method);
        let request = HTTPRequest { context };
        let mut outcomes: Vec<Option<HttpResponse>> = Vec::new();
        let mut k: usize = 0;
        while k < handlers.len()
            invariant
                k <= handlers@.len(),
                handlers@.map_values(|i: usize| i as int) == matched,
                forall|m: int| 0 <= m < handlers@.len() ==> (#[trigger] handlers@[m] as int) < self@.len(),
                outcomes@.len() == k,
                forall|m: int|
                    0 <= m < k ==> (response_view_of(#[trigger] outcomes@[m]) is Some <==> self@[matched[m]].handler is Some),
            decreases handlers.len() - k,
        {
            let idx = handlers[k];
            assert(matched[k as int] == idx as int);
            assert(self@[idx as int] == self.routes@[idx as int]@);
            let outcome = self.routes[idx].handle(&request);
            outcomes.push(outcome);
            k = k + 1;
        }
        let ghost outs = outcomes@.map_values(|o: Option<HttpResponse>| response_view_of(o));
        assert forall|m: int| 0 <= m < outs.len() implies ((#[trigger] outs[m]) is Some
            <==> self@[matched[m]].handler is Some) by {
            assert(outs[m] == response_view_of(outcomes@[m]));
        }
        let r = final_response(outcomes);
        proof {
            if forall|m: int| 0 <= m < matched.len() ==> self@[#[trigger] matched[m]].handler is None {
                assert forall|m: int| 0 <= m < outs.len() implies (#[trigger] outs[m]) is None by {
                    assert(self@[matched[m]].handler is None);
                }
                lemma_no_outcome_not_found(outs);
            }
        }
        r
    }
}

/// If a first path match exists in a prefix, it is the first in the whole sequence.
pub proof fn lemma_first_path_match_extends<H, Pre, Post>(
    routes: Seq<MappingView<H, Pre, Post>>,
    path: Seq<char>,
    n: int,
)
    requires
        0 <= n <= routes.len(),
        first_path_match(routes.take(n), path) is Some,
    ensures
        first_path_match(routes, path) == first_path_match(routes.take(n), path),
        first_path_match(routes, path) matches Some(i) ==> 0 <= i < n,
    decreases routes.len() - n,
{
    lemma_first_path_match_bounds(routes.take(n), path);
    if n < routes.len() {
        assert(routes.take(n + 1).drop_last() =~= routes.take(n));
        lemma_first_path_match_extends(routes, path, n + 1);
    } else {
        assert(routes.take(n) =~= routes);
    }
}

pub proof fn lemma_first_path_match_bounds<H, Pre, Post>(
    routes: Seq<MappingView<H, Pre, Post>>,
    path: Seq<char>,
)
    ensures
        first_path_match(routes, path) matches Some(i) ==> 0 <= i < routes.len(),
    decreases routes.len(),
{
    if routes.len() > 0 {
        lemma_first_path_match_bounds(routes.drop_last(), path);
    }
}

} // verus!
