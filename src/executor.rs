//! Resolving a request through nested routers into the leaf requests to
//! execute, depth first and first target first.
use vstd::prelude::*;
use crate::json::{
    clone_entries, entries_model, find_entry, get_entry, is_first, lemma_first_unique,
    lemma_upsert_lookup, lookup, set_entry, upsert, Json, JsonV,
};
use crate::metrics::{MetricsSnapshot, ProviderMetrics};
use crate::routing::{
    error_matches, draw_ok, route_outcome, routed, router_of, targets_model, draw_bound, LlmRouter,
    RouteFailure, RouterError, RouterModel, StrategyModel, Target, TargetModel, total_weight,
};

verus! {

/// The most frames that one resolution pops.
pub const MAX_DEPTH: usize = 10;

/// Why a request could not be resolved.
#[derive(Debug, Clone, Copy, PartialEq, Eq, Structural)]
pub enum RoutedExecutorError {
    /// The request's embedded router is not a router.
    FailedToDeserializeRequestResult,
    /// A request merged with a target is no longer a request.
    FailedToSerializeMergedRequestResult,
    /// More than [`MAX_DEPTH`] frames were popped.
    MaxDepthReached,
    /// Every router failed and no frame is left.
    NoRouteFound,
}

/// A chat-completion request in its JSON object form: `model`, `messages`
/// and the other parameters, and optionally an embedded `router`.
#[derive(Debug, PartialEq)]
pub struct ChatCompletionRequest {
    pub fields: Vec<(String, Json)>,
}

pub type RequestModel = Seq<(Seq<char>, JsonV)>;

impl ChatCompletionRequest {
    pub open spec fn model(&self) -> RequestModel {
        entries_model(self.fields@)
    }
}

/// The request `o` merged with the first `n` entries of target `t`: each
/// non-null value replaces the request's value under its key. A target is
/// read as a map, by the first entry of each key; later entries with the
/// same key are ignored.
pub open spec fn merge_fields(o: RequestModel, t: TargetModel, n: int) -> RequestModel
    decreases n,
{
    if n <= 0 || n > t.len() {
        o
    } else {
        let acc = merge_fields(o, t, n - 1);
        if t[n - 1].1 is Null || !is_first(t, t[n - 1].0, n - 1) {
            acc
        } else {
            upsert(acc, t[n - 1].0, t[n - 1].1)
        }
    }
}

pub open spec fn merged(o: RequestModel, t: TargetModel) -> RequestModel {
    merge_fields(o, t, t.len() as int)
}

/// The router field of a request: absent or null is no router.
pub enum RouterField {
    NoRouter,
    Router(RouterModel),
    Invalid,
}

pub open spec fn router_field(o: RequestModel) -> RouterField {
    match lookup(o, "router"@) {
        None | Some(JsonV::Null) => RouterField::NoRouter,
        Some(v) => match router_of(v) {
            Some(m) => RouterField::Router(m),
            None => RouterField::Invalid,
        },
    }
}

/// A request is well formed: its `model` is a string, its `messages` a list,
/// and its `router`, if any, a router.
pub open spec fn request_ok(o: RequestModel) -> bool {
    &&& lookup(o, "model"@) matches Some(JsonV::Str(_))
    &&& lookup(o, "messages"@) matches Some(JsonV::Array(_))
    &&& !(router_field(o) is Invalid)
}

/// The request with its router cleared.
pub open spec fn cleared(o: RequestModel) -> RequestModel {
    upsert(o, "router"@, JsonV::Null)
}

/// Copies the request and merges the target into it; fails where the result
/// is not a well-formed request.
pub fn merge_request_with_target(request: &ChatCompletionRequest, target: &Target) -> (r: Result<ChatCompletionRequest, RoutedExecutorError>)
    ensures
        request_ok(merged(request.model(), entries_model(target@))) ==> r is Ok && r->Ok_0.model() == merged(request.model(), entries_model(target@)),
        !request_ok(merged(request.model(), entries_model(target@))) ==> r == Err::<ChatCompletionRequest, RoutedExecutorError>(RoutedExecutorError::FailedToSerializeMergedRequestResult),
{
    let ghost t = entries_model(target@);
    let mut fields = clone_entries(&request.fields);
    let mut i: usize = 0;
    while i < target.len()
        invariant
            i <= target.len(),
            t == entries_model(target@),
            entries_model(fields@) == merge_fields(request.model(), t, i as int),
        decreases target.len() - i,
    {
        let first = match find_entry(target, &target[i].0) {
            Some(j) => j == i,
            None => false,
        };
        proof {
            if first {
                assert(is_first(t, t[i as int].0, i as int));
            } else {
                assert(t[i as int].0 == target@[i as int].0@);
                if is_first(t, t[i as int].0, i as int) {
                    let c = choose|j: int| is_first(entries_model(target@), target@[i as int].0@, j);
                    assert(exists|j: int| is_first(entries_model(target@), target@[i as int].0@, j));
                }
            }
        }
        if first {
            match &target[i].1 {
                Json::Null => {},
                v => {
                    set_entry(&mut fields, target[i].0.clone(), v.clone());
                },
            }
        }
        i += 1;
    }
    let r = ChatCompletionRequest { fields };
    if check_request(&r) {
        Ok(r)
    } else {
        Err(RoutedExecutorError::FailedToSerializeMergedRequestResult)
    }
}

/// The embedded router of a request, where it has one.
pub fn embedded_router(request: &ChatCompletionRequest) -> (r: Result<Option<LlmRouter>, RoutedExecutorError>)
    ensures
        match router_field(request.model()) {
            RouterField::NoRouter => r == Ok::<Option<LlmRouter>, RoutedExecutorError>(None),
            RouterField::Router(m) => r is Ok && r->Ok_0 is Some && r->Ok_0->Some_0.model() == m,
            RouterField::Invalid => r == Err::<Option<LlmRouter>, RoutedExecutorError>(RoutedExecutorError::FailedToDeserializeRequestResult),
        },
{
    match get_entry(&request.fields, &String::from_str("router")) {
        None | Some(Json::Null) => Ok(None),
        Some(v) => match LlmRouter::from_json(v) {
            Some(router) => Ok(Some(router)),
            None => Err(RoutedExecutorError::FailedToDeserializeRequestResult),
        },
    }
}

/// Whether the request is well formed.
pub fn check_request(request: &ChatCompletionRequest) -> (r: bool)
    ensures
        r == request_ok(request.model()),
{
    let model_ok = match get_entry(&request.fields, &String::from_str("model")) {
        Some(Json::Str(_)) => true,
        _ => false,
    };
    let messages_ok = match get_entry(&request.fields, &String::from_str("messages")) {
        Some(Json::Array(_)) => true,
        _ => false,
    };
    model_ok && messages_ok && embedded_router(request).is_ok()
}

/// Merging keeps to the JSON object semantics: each key that the target
/// binds to a non-null value is bound to that value in the result, and every
/// other key, null in the target or absent from it, keeps its value.
pub proof fn lemma_merge_keys(o: RequestModel, t: TargetModel, k: Seq<char>)
    ensures
        match lookup(t, k) {
            Some(v) => if v is Null {
                lookup(merged(o, t), k) == lookup(o, k)
            } else {
                lookup(merged(o, t), k) == Some(v)
            },
            None => lookup(merged(o, t), k) == lookup(o, k),
        },
{
    lemma_merge_prefix(o, t, k, t.len() as int);
    if exists|i: int| is_first(t, k, i) {
        let i = choose|i: int| is_first(t, k, i);
        assert(i < t.len());
    }
}

proof fn lemma_merge_prefix(o: RequestModel, t: TargetModel, k: Seq<char>, n: int)
    requires
        0 <= n <= t.len(),
    ensures
        forall|i: int| 0 <= i < n && is_first(t, k, i) && !(t[i].1 is Null) ==> lookup(merge_fields(o, t, n), k) == Some(t[i].1),
        (forall|i: int| 0 <= i < n && is_first(t, k, i) ==> t[i].1 is Null) ==> lookup(merge_fields(o, t, n), k) == lookup(o, k),
    decreases n,
{
    if n > 0 {
        lemma_merge_prefix(o, t, k, n - 1);
        let acc = merge_fields(o, t, n - 1);
        let kn = t[n - 1].0;
        if !(t[n - 1].1 is Null) && is_first(t, kn, n - 1) {
            lemma_upsert_lookup(acc, kn, t[n - 1].1, k);
            if kn == k {
                assert forall|i: int| 0 <= i < n - 1 implies !is_first(t, k, i) by {
                    if is_first(t, k, i) {
                        lemma_first_unique(t, k, i, n - 1);
                    }
                }
            }
        }
        assert forall|i: int| 0 <= i < n && is_first(t, k, i) && !(t[i].1 is Null) implies lookup(merge_fields(o, t, n), k) == Some(t[i].1) by {
            if i < n - 1 && kn == k && is_first(t, kn, n - 1) {
                lemma_first_unique(t, k, i, n - 1);
            }
        }
    }
}

/// One frame of the resolution stack: a request, and the target to merge
/// into it once the frame is popped.
pub struct Frame {
    pub request: ChatCompletionRequest,
    pub target: Option<Target>,
}

pub type FrameModel = (RequestModel, Option<TargetModel>);

impl Frame {
    pub open spec fn model(&self) -> FrameModel {
        (
            self.request.model(),
            match self.target {
                Some(t) => Some(entries_model(t@)),
                None => None,
            },
        )
    }
}

/// What one step of a resolution did.
#[derive(Debug)]
pub enum ResolutionStep {
    /// The popped frame is a leaf: execute this request. Where that fails,
    /// ask [`Resolution::leaf_failed`] whether to go on.
    Execute(ChatCompletionRequest),
    /// The popped frame's router yielded this many targets, now pending with
    /// the first on top.
    Expanded(usize),
    /// The popped frame's router failed; the frame was dropped.
    RouterFailed(RouterError),
    /// The resolution failed; [`RoutedExecutorError::NoRouteFound`] where no
    /// frame was left.
    Failed(RoutedExecutorError),
}

pub enum StepModel {
    Execute(RequestModel),
    Expanded(nat),
    RouterFailed(RouteFailure),
    Failed(RoutedExecutorError),
}

impl ResolutionStep {
    pub open spec fn matches(&self, m: StepModel) -> bool {
        match (self, m) {
            (ResolutionStep::Execute(r), StepModel::Execute(rm)) => r.model() == rm,
            (ResolutionStep::Expanded(n), StepModel::Expanded(nm)) => *n as nat == nm,
            (ResolutionStep::RouterFailed(e), StepModel::RouterFailed(f)) => error_matches(*e, f),
            (ResolutionStep::Failed(e), StepModel::Failed(em)) => *e == em,
            _ => false,
        }
    }
}

/// The state of a resolution: the frame stack, top last, and the number of
/// frames popped.
pub struct ResolutionModel {
    pub stack: Seq<FrameModel>,
    pub depth: nat,
}

/// The frames that a router's targets become, pushed so that the first
/// target is on top.
pub open spec fn child_frames(req: RequestModel, ts: Seq<TargetModel>) -> Seq<FrameModel> {
    Seq::new(ts.len(), |i: int| (req, Some(ts[ts.len() - 1 - i])))
}

/// The request a popped frame stands for: its own, or, with a target, its
/// own with the router cleared and the target merged in.
pub open spec fn frame_request(f: FrameModel) -> Result<RequestModel, RoutedExecutorError> {
    match f.1 {
        None => Ok(f.0),
        Some(t) => {
            let m = merged(cleared(f.0), t);
            if request_ok(m) {
                Ok(m)
            } else {
                Err(RoutedExecutorError::FailedToSerializeMergedRequestResult)
            }
        },
    }
}

/// One step: pop the top frame, count it, and fail past [`MAX_DEPTH`];
/// merge its target; expand its router into child frames (dropping the
/// frame where the router fails) or hand a leaf out to execute. `None`
/// where no frame is left.
pub open spec fn step_spec(s: ResolutionModel, snap: Seq<(String, ProviderMetrics)>, draw: int) -> Option<(ResolutionModel, StepModel)> {
    if s.stack.len() == 0 {
        None
    } else {
        let f = s.stack.last();
        let rest = s.stack.drop_last();
        let depth = if s.depth >= MAX_DEPTH { MAX_DEPTH as nat + 1 } else { s.depth + 1 };
        let next = |stack: Seq<FrameModel>| ResolutionModel { stack, depth };
        if depth > MAX_DEPTH {
            Some((next(rest), StepModel::Failed(RoutedExecutorError::MaxDepthReached)))
        } else {
            match frame_request(f) {
                Err(e) => Some((next(rest), StepModel::Failed(e))),
                Ok(req) => match router_field(req) {
                    RouterField::Invalid => Some((next(rest), StepModel::Failed(RoutedExecutorError::FailedToDeserializeRequestResult))),
                    RouterField::NoRouter => Some((next(rest), StepModel::Execute(req))),
                    RouterField::Router(m) => match route_outcome(m, snap, draw) {
                        Ok(ts) => Some((next(rest + child_frames(req, ts)), StepModel::Expanded(ts.len()))),
                        Err(fail) => Some((next(rest), StepModel::RouterFailed(fail))),
                    },
                },
            }
        }
    }
}

/// `r` and `t` are what one step from `s` gives for the draw `draw`; with no
/// frame left, the resolution fails with `NoRouteFound`.
pub open spec fn stepped(s: ResolutionModel, t: ResolutionModel, r: ResolutionStep, snap: Seq<(String, ProviderMetrics)>, draw: int) -> bool {
    match step_spec(s, snap, draw) {
        Some(p) => t == p.0 && r.matches(p.1),
        None => t == s && r.matches(StepModel::Failed(RoutedExecutorError::NoRouteFound)),
    }
}

/// The draws that a step may make: those of the router it would expand.
pub open spec fn step_draw_ok(s: ResolutionModel, draw: int) -> bool {
    s.stack.len() > 0 ==> match frame_request(s.stack.last()) {
        Ok(req) => match router_field(req) {
            RouterField::Router(m) => draw_ok(m, draw),
            _ => true,
        },
        Err(_) => true,
    }
}

/// A request on its way through the routers.
pub struct RoutedExecutor {
    request: ChatCompletionRequest,
}

/// A resolution in progress.
pub struct Resolution {
    stack: Vec<Frame>,
    depth: usize,
}

impl Resolution {
    pub closed spec fn model(&self) -> ResolutionModel {
        ResolutionModel { stack: Seq::new(self.stack.len() as nat, |i: int| self.stack[i].model()), depth: self.depth as nat }
    }

    /// Whether frames are pending.
    pub fn has_pending(&self) -> (r: bool)
        ensures
            r == (self.model().stack.len() > 0),
    {
        self.stack.len() > 0
    }

    /// The number of frames popped so far.
    pub fn depth(&self) -> (r: usize)
        ensures
            r as nat == self.model().depth,
    {
        self.depth
    }

    /// What to do once an executed leaf failed with `error`: go on with the
    /// next frame while one is pending, else report `error`.
    pub fn leaf_failed<E>(&self, error: E) -> (r: Result<(), E>)
        ensures
            self.model().stack.len() > 0 ==> r is Ok,
            self.model().stack.len() == 0 ==> r == Err::<(), E>(error),
    {
        if self.stack.len() > 0 {
            Ok(())
        } else {
            Err(error)
        }
    }

    /// Pops and resolves the top frame. Routers draw their random values
    /// here.
    pub fn step(&mut self, metrics: &MetricsSnapshot) -> (r: ResolutionStep)
        ensures
            exists|d: int| step_draw_ok(old(self).model(), d) && #[trigger] stepped(old(self).model(), final(self).model(), r, metrics@, d),
    {
        self.step_with_draw(metrics, u64::MAX)
    }

    /// [`Resolution::step`], where a router that draws takes `draw` if it is
    /// among its values, and a random one otherwise.
    pub fn step_with_draw(&mut self, metrics: &MetricsSnapshot, draw: u64) -> (r: ResolutionStep)
        ensures
            exists|d: int| step_draw_ok(old(self).model(), d) && #[trigger] stepped(old(self).model(), final(self).model(), r, metrics@, d),
            step_draw_ok(old(self).model(), draw as int) ==> stepped(old(self).model(), final(self).model(), r, metrics@, draw as int),
    {
        let ghost s = self.model();
        let frame = match self.stack.pop() {
            Some(f) => f,
            None => {
                assert(self.model() =~~= s);
                let r = ResolutionStep::Failed(RoutedExecutorError::NoRouteFound);
                assert(stepped(s, self.model(), r, metrics@, 0));
                return r;
            },
        };
        let ghost rest = s.stack.drop_last();
        assert(frame.model() == s.stack.last());
        assert(self.model().stack =~= rest);
        if self.depth >= MAX_DEPTH {
            self.depth = MAX_DEPTH + 1;
            let r = ResolutionStep::Failed(RoutedExecutorError::MaxDepthReached);
            assert(stepped(s, self.model(), r, metrics@, 0));
            return r;
        }
        self.depth = self.depth + 1;
        let request = match frame.target {
            None => frame.request,
            Some(t) => {
                let mut base = frame.request;
                set_entry(&mut base.fields, String::from_str("router"), Json::Null);
                match merge_request_with_target(&base, &t) {
                    Ok(m) => m,
                    Err(e) => {
                        let r = ResolutionStep::Failed(e);
                        assert(stepped(s, self.model(), r, metrics@, 0));
                        return r;
                    },
                }
            },
        };
        assert(frame_request(frame.model()) == Ok::<RequestModel, RoutedExecutorError>(request.model()));
        let router = match embedded_router(&request) {
            Err(e) => {
                let r = ResolutionStep::Failed(e);
                assert(stepped(s, self.model(), r, metrics@, 0));
                return r;
            },
            Ok(None) => {
                let r = ResolutionStep::Execute(request);
                assert(stepped(s, self.model(), r, metrics@, 0));
                return r;
            },
            Ok(Some(router)) => router,
        };
        let limit = router.draw_limit();
        let routed_targets = if limit == 0 {
            router.route_with_draw(metrics, 0)
        } else if draw < limit {
            router.route_with_draw(metrics, draw)
        } else {
            router.route(metrics)
        };
        let ghost d = if limit == 0 {
            0
        } else if draw < limit {
            draw as int
        } else {
            choose|d: int| draw_ok(router.model(), d) && #[trigger] routed(routed_targets, router.model(), metrics@, d)
        };
        assert(draw_ok(router.model(), d) && routed(routed_targets, router.model(), metrics@, d));
        proof {
            if limit == 0 && draw_ok(router.model(), draw as int) {
                if draw_bound(router.model()) > 0 {
                    assert(router.model().strategy is Percentage);
                    assert(total_weight(router.model().strategy->Percentage_0) > u64::MAX);
                }
                assert(route_outcome(router.model(), metrics@, draw as int) == route_outcome(router.model(), metrics@, 0));
            }
        }
        match routed_targets {
            Ok(mut targets) => {
                let n = targets.len();
                let ghost ts = targets_model(targets@);
                let ghost base = self.model().stack;
                let mut k: usize = 0;
                while targets.len() > 0
                    invariant
                        k + targets.len() == n,
                        ts.len() == n,
                        forall|i: int| 0 <= i < targets.len() ==> entries_model((#[trigger] targets@[i])@) == ts[i],
                        self.model().stack == base + child_frames(request.model(), ts).take(k as int),
                        self.depth == old(self).depth + 1,
                    decreases targets.len(),
                {
                    let t = targets.pop().unwrap();
                    let copy = ChatCompletionRequest { fields: clone_entries(&request.fields) };
                    let ghost before = self.model().stack;
                    self.stack.push(Frame { request: copy, target: Some(t) });
                    proof {
                        assert(child_frames(request.model(), ts)[k as int] == (request.model(), Some(ts[n - 1 - k])));
                        assert(self.model().stack =~= before.push((request.model(), Some(ts[n - 1 - k]))));
                        assert(child_frames(request.model(), ts).take(k as int + 1) =~= child_frames(request.model(), ts).take(k as int).push((request.model(), Some(ts[n - 1 - k]))));
                    }
                    k += 1;
                }
                assert(child_frames(request.model(), ts).take(n as int) =~= child_frames(request.model(), ts));
                let r = ResolutionStep::Expanded(n);
                assert(stepped(s, self.model(), r, metrics@, d));
                r
            },
            Err(e) => {
                let r = ResolutionStep::RouterFailed(e);
                assert(stepped(s, self.model(), r, metrics@, d));
                r
            },
        }
    }
}

impl RoutedExecutor {
    pub fn new(request: ChatCompletionRequest) -> (r: Self)
        ensures
            r.request().model() == request.model(),
    {
        RoutedExecutor { request }
    }

    pub closed spec fn request(&self) -> ChatCompletionRequest {
        self.request
    }

    /// A resolution whose only frame is the request.
    pub fn start(&self) -> (r: Resolution)
        ensures
            r.model().stack == seq![(self.request().model(), None::<TargetModel>)],
            r.model().depth == 0,
    {
        let copy = ChatCompletionRequest { fields: clone_entries(&self.request.fields) };
        let r = Resolution { stack: vec![Frame { request: copy, target: None }], depth: 0 };
        assert(r.model().stack =~= seq![(self.request().model(), None::<TargetModel>)]);
        r
    }
}

/// `k` steps from `s`, the `i`-th with the draw `draws[i]`: the state
/// reached and what each step did; `None` where the stack ran out first.
pub open spec fn run(s: ResolutionModel, snap: Seq<(String, ProviderMetrics)>, draws: Seq<int>, k: nat) -> Option<(ResolutionModel, Seq<StepModel>)>
    decreases k,
{
    if k == 0 {
        Some((s, Seq::empty()))
    } else {
        match run(s, snap, draws, (k - 1) as nat) {
            Some(p) => match step_spec(p.0, snap, draws[k - 1]) {
                Some(q) => Some((q.0, p.1.push(q.1))),
                None => None,
            },
            None => None,
        }
    }
}

/// `below` lies under the frames of `s`.
pub open spec fn rests_on(s: ResolutionModel, below: Seq<FrameModel>) -> bool {
    s.stack.len() >= below.len() && s.stack.take(below.len() as int) == below
}

/// After `j` steps from `s` the stack is exactly `below`.
pub open spec fn back_to(s: ResolutionModel, snap: Seq<(String, ProviderMetrics)>, draws: Seq<int>, j: nat, below: Seq<FrameModel>) -> bool {
    match run(s, snap, draws, j) {
        Some(q) => q.0.stack == below,
        None => false,
    }
}

/// After `k` steps from `s`, where it gets that far, `below` still lies
/// under the stack.
pub open spec fn still_rests(s: ResolutionModel, snap: Seq<(String, ProviderMetrics)>, draws: Seq<int>, k: nat, below: Seq<FrameModel>) -> bool {
    match run(s, snap, draws, k) {
        Some(p) => rests_on(p.0, below),
        None => true,
    }
}

/// Resolution is depth first: the frames under the top frame wait,
/// untouched, until everything the top frame expands into has been popped.
/// After any number of steps they still lie at the bottom of the stack, or
/// at some step the stack was exactly those frames again.
pub proof fn lemma_depth_first(s: ResolutionModel, snap: Seq<(String, ProviderMetrics)>, draws: Seq<int>, k: nat, below: Seq<FrameModel>)
    requires
        s.stack.len() > below.len(),
        s.stack.take(below.len() as int) == below,
    ensures
        still_rests(s, snap, draws, k, below) || exists|j: nat| j <= k && #[trigger] back_to(s, snap, draws, j, below),
    decreases k,
{
    if k > 0 {
        lemma_depth_first(s, snap, draws, (k - 1) as nat, below);
        if let Some(p) = run(s, snap, draws, (k - 1) as nat) {
            if rests_on(p.0, below) {
                if p.0.stack.len() == below.len() {
                    assert(p.0.stack =~= below);
                    assert(back_to(s, snap, draws, (k - 1) as nat, below));
                } else if let Some(q) = step_spec(p.0, snap, draws[k - 1]) {
                    let st = p.0.stack;
                    assert(st.drop_last().take(below.len() as int) =~= below);
                    let rest = st.drop_last();
                    assert forall|c: Seq<FrameModel>| (rest + c).take(below.len() as int) == below by {
                        assert((rest + c).take(below.len() as int) =~= rest.take(below.len() as int));
                    }
                }
            }
        }
    }
}

/// A leaf target of `req`: merged into `req` with its router cleared, it
/// makes a well-formed request without a router.
pub open spec fn leaf_target(req: RequestModel, t: TargetModel) -> bool {
    request_ok(merged(cleared(req), t)) && router_field(merged(cleared(req), t)) is NoRouter
}

/// A fallback router whose targets all fail: its `n` targets are tried one
/// after another, in their order, and after the last one nothing is pending,
/// so the last failure is the one reported. This holds for `n` up to
/// `MAX_DEPTH - 1`, as the router's own frame counts too.
pub proof fn lemma_fallback_tries_all(req: RequestModel, m: RouterModel, snap: Seq<(String, ProviderMetrics)>, draws: Seq<int>)
    requires
        router_field(req) == RouterField::Router(m),
        m.strategy is Fallback,
        1 <= m.targets.len() <= MAX_DEPTH - 1,
        forall|i: int| 0 <= i < m.targets.len() ==> leaf_target(req, #[trigger] m.targets[i]),
    ensures
        match run(ResolutionModel { stack: seq![(req, None)], depth: 0 }, snap, draws, m.targets.len() + 1) {
            Some(p) => {
                &&& p.0.stack.len() == 0
                &&& p.1.len() == m.targets.len() + 1
                &&& p.1[0] == StepModel::Expanded(m.targets.len())
                &&& forall|k: int| 1 <= k <= m.targets.len() ==> #[trigger] p.1[k] == StepModel::Execute(merged(cleared(req), m.targets[k - 1]))
            },
            None => false,
        },
{
    lemma_fallback_prefix(req, m, snap, draws, m.targets.len());
}

proof fn lemma_fallback_prefix(req: RequestModel, m: RouterModel, snap: Seq<(String, ProviderMetrics)>, draws: Seq<int>, k: nat)
    requires
        router_field(req) == RouterField::Router(m),
        m.strategy is Fallback,
        1 <= m.targets.len() <= MAX_DEPTH - 1,
        forall|i: int| 0 <= i < m.targets.len() ==> leaf_target(req, #[trigger] m.targets[i]),
        k <= m.targets.len(),
    ensures
        match run(ResolutionModel { stack: seq![(req, None)], depth: 0 }, snap, draws, k + 1) {
            Some(p) => {
                &&& p.0.stack == child_frames(req, m.targets).take(m.targets.len() - k)
                &&& p.0.depth == k + 1
                &&& p.1.len() == k + 1
                &&& p.1[0] == StepModel::Expanded(m.targets.len())
                &&& forall|j: int| 1 <= j <= k ==> #[trigger] p.1[j] == StepModel::Execute(merged(cleared(req), m.targets[j - 1]))
            },
            None => false,
        },
    decreases k,
{
    let s0 = ResolutionModel { stack: seq![(req, None::<TargetModel>)], depth: 0 };
    let n = m.targets.len();
    let ts = m.targets;
    if k == 0 {
        assert(run(s0, snap, draws, 0) == Some((s0, Seq::<StepModel>::empty())));
        assert(s0.stack.last() == (req, None::<TargetModel>));
        assert(s0.stack.drop_last() + child_frames(req, ts) =~= child_frames(req, ts).take(n as int));
    } else {
        lemma_fallback_prefix(req, m, snap, draws, (k - 1) as nat);
        let p = run(s0, snap, draws, k)->Some_0;
        let st = p.0.stack;
        assert(st.last() == (req, Some(ts[k - 1])));
        assert(leaf_target(req, ts[k - 1]));
        assert(st.drop_last() =~= child_frames(req, ts).take(n - k));
        let q = step_spec(p.0, snap, draws[k as int])->Some_0;
        assert(q.1 == StepModel::Execute(merged(cleared(req), ts[k - 1])));
        let outs = p.1.push(q.1);
        assert forall|j: int| 1 <= j <= k implies #[trigger] outs[j] == StepModel::Execute(merged(cleared(req), ts[j - 1])) by {
            if j < k {
                assert(outs[j] == p.1[j]);
            }
        }
    }
}

} // verus!
