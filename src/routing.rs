//! Routers: a strategy over a list of targets that yields the targets to try.
use vstd::prelude::*;
use vstd::set_lib::{lemma_int_range, set_int_range};
use crate::json::{
    clone_entries, decimal_micro, entries_model, get_entry, is_text, lookup, parse_micro, Json, JsonV,
};
use crate::metric::{names, rank, ranked, route_in, MetricSelector};
use crate::metrics::{Metrics, MetricsSnapshot, ProviderMetrics, TimeMetrics};

verus! {

/// Why a router yielded no targets.
#[derive(Debug, Clone, PartialEq, Eq)]
pub enum RouterError {
    UnkwownMetric(String),
    MetricRouterError(String),
    TransformationRouterError(String),
    InvalidMetric(String),
    TargetByIndexNotFound(usize),
    MetricsRepositoryError(String),
    /// The percentage weights add up to more than a `u64` holds.
    WeightsOverflow,
}

/// The time window whose metrics an optimizing router reads.
#[derive(Debug, Clone, Copy, PartialEq, Eq, Structural)]
pub enum MetricsDuration {
    Total,
    Last15Minutes,
    LastHour,
}

impl MetricsDuration {
    pub open spec fn bucket(&self, t: TimeMetrics) -> Metrics {
        match self {
            MetricsDuration::Total => t.total,
            MetricsDuration::Last15Minutes => t.last_15_minutes,
            MetricsDuration::LastHour => t.last_hour,
        }
    }

    /// The metrics of this window.
    pub fn select(&self, t: &TimeMetrics) -> (r: Metrics)
        ensures
            r == self.bucket(*t),
    {
        match self {
            MetricsDuration::Total => t.total,
            MetricsDuration::Last15Minutes => t.last_15_minutes,
            MetricsDuration::LastHour => t.last_hour,
        }
    }
}


/// A target: option keys with the values that override the request's; the
/// key `model` names the model as `provider/model`.
pub type Target = Vec<(String, Json)>;

pub type Targets = Vec<Target>;

/// The value of a target.
pub type TargetModel = Seq<(Seq<char>, JsonV)>;

pub open spec fn targets_model(t: Seq<Target>) -> Seq<TargetModel> {
    Seq::new(t.len(), |i: int| entries_model(t[i]@))
}

/// How a router turns its targets into the targets to try.
#[derive(Debug, Clone)]
pub enum RoutingStrategy {
    /// All targets, in their order.
    Fallback,
    /// One target, drawn with the given weights, in millionths.
    Percentage { targets_percentages: Vec<u64> },
    /// One target, drawn uniformly.
    Random,
    /// The target whose model ranks best by a metric.
    Optimized { metric: MetricSelector },
}

pub enum StrategyModel {
    Fallback,
    Percentage(Seq<u64>),
    Random,
    Optimized(MetricSelector),
}

impl RoutingStrategy {
    pub open spec fn model(&self) -> StrategyModel {
        match self {
            RoutingStrategy::Fallback => StrategyModel::Fallback,
            RoutingStrategy::Percentage { targets_percentages } => StrategyModel::Percentage(targets_percentages@),
            RoutingStrategy::Random => StrategyModel::Random,
            RoutingStrategy::Optimized { metric } => StrategyModel::Optimized(*metric),
        }
    }

    /// The strategy's name.
    pub fn as_str(&self) -> (r: &'static str)
        ensures
            r@ == match self {
                RoutingStrategy::Fallback => "Fallback"@,
                RoutingStrategy::Percentage { .. } => "Percentage"@,
                RoutingStrategy::Random => "Random"@,
                RoutingStrategy::Optimized { .. } => "Optimized"@,
            },
    {
        match self {
            RoutingStrategy::Fallback => "Fallback",
            RoutingStrategy::Percentage { .. } => "Percentage",
            RoutingStrategy::Random => "Random",
            RoutingStrategy::Optimized { .. } => "Optimized",
        }
    }
}

impl Default for RoutingStrategy {
    fn default() -> (r: Self)
        ensures
            r.model() == StrategyModel::Optimized(MetricSelector::Latency),
    {
        RoutingStrategy::Optimized { metric: MetricSelector::Latency }
    }
}

/// A router: a named strategy over a list of targets.
#[derive(Debug, Clone)]
pub struct LlmRouter {
    pub name: String,
    pub strategy: RoutingStrategy,
    pub targets: Vec<Target>,
    pub metrics_duration: Option<MetricsDuration>,
}

pub struct RouterModel {
    pub name: Seq<char>,
    pub strategy: StrategyModel,
    pub targets: Seq<TargetModel>,
    pub metrics_duration: Option<MetricsDuration>,
}

impl LlmRouter {
    pub open spec fn model(&self) -> RouterModel {
        RouterModel {
            name: self.name@,
            strategy: self.strategy.model(),
            targets: targets_model(self.targets@),
            metrics_duration: self.metrics_duration,
        }
    }
}

/// The sum of the first `n` weights.
pub open spec fn prefix_sum(w: Seq<u64>, n: int) -> int
    decreases n,
{
    if n <= 0 || n > w.len() {
        0
    } else {
        prefix_sum(w, n - 1) + w[n - 1]
    }
}

pub open spec fn total_weight(w: Seq<u64>) -> int {
    prefix_sum(w, w.len() as int)
}

/// `i` is the first weight whose running sum passes `u`.
pub open spec fn weight_first(w: Seq<u64>, u: int, i: int) -> bool {
    &&& 0 <= i < w.len()
    &&& u < prefix_sum(w, i + 1)
    &&& forall|j: int| 1 <= j <= i ==> u >= #[trigger] prefix_sum(w, j)
}

/// The index that a draw `u` selects: the `i` with
/// `prefix_sum(w, i) <= u < prefix_sum(w, i + 1)`, or the last index where
/// there is none.
pub open spec fn weighted_index(w: Seq<u64>, u: int) -> int {
    if exists|i: int| weight_first(w, u, i) {
        choose|i: int| weight_first(w, u, i)
    } else if w.len() > 0 {
        w.len() - 1
    } else {
        0
    }
}

pub proof fn lemma_prefix_mono(w: Seq<u64>, a: int, b: int)
    requires
        0 <= a <= b <= w.len(),
    ensures
        prefix_sum(w, a) <= prefix_sum(w, b),
    decreases b - a,
{
    if a < b {
        lemma_prefix_mono(w, a, b - 1);
    }
}

/// The sum of the weights, where it fits a `u64`.
pub fn total_weight_exec(weights: &Vec<u64>) -> (r: Option<u64>)
    ensures
        match r {
            Some(t) => t == total_weight(weights@),
            None => total_weight(weights@) > u64::MAX,
        },
{
    let mut sum: u64 = 0;
    let mut i: usize = 0;
    while i < weights.len()
        invariant
            i <= weights.len(),
            sum == prefix_sum(weights@, i as int),
        decreases weights.len() - i,
    {
        match sum.checked_add(weights[i]) {
            Some(t) => sum = t,
            None => {
                proof {
                    lemma_prefix_mono(weights@, i as int + 1, weights@.len() as int);
                }
                return None;
            },
        }
        i += 1;
    }
    Some(sum)
}

/// The index that `draw` selects among the weights: the one whose interval
/// of running sums holds it.
pub fn pick_weighted(weights: &Vec<u64>, draw: u64) -> (r: usize)
    requires
        total_weight(weights@) <= u64::MAX,
    ensures
        r as int == weighted_index(weights@, draw as int),
{
    let mut sum: u64 = 0;
    let mut i: usize = 0;
    while i < weights.len()
        invariant
            i <= weights.len(),
            sum == prefix_sum(weights@, i as int),
            total_weight(weights@) <= u64::MAX,
            forall|j: int| 1 <= j <= i ==> draw as int >= #[trigger] prefix_sum(weights@, j),
        decreases weights.len() - i,
    {
        proof {
            lemma_prefix_mono(weights@, i as int + 1, weights@.len() as int);
        }
        let prev = sum;
        sum = sum + weights[i];
        if prev <= draw && draw < sum {
            proof {
                assert(weight_first(weights@, draw as int, i as int));
                let c = choose|k: int| weight_first(weights@, draw as int, k);
                assert(c == i as int) by {
                    if c < i as int {
                    } else if c > i as int {
                    }
                }
            }
            return i;
        }
        i += 1;
    }
    proof {
        assert forall|k: int| !weight_first(weights@, draw as int, k) by {
            if weight_first(weights@, draw as int, k) {
                assert(draw as int >= prefix_sum(weights@, k + 1));
            }
        }
    }
    if weights.len() > 0 {
        weights.len() - 1
    } else {
        0
    }
}


proof fn lemma_weight_first_unique(w: Seq<u64>, u: int, a: int, b: int)
    requires
        weight_first(w, u, a),
        weight_first(w, u, b),
    ensures
        a == b,
{
    if a < b {
        assert(u >= prefix_sum(w, a + 1));
    } else if b < a {
        assert(u >= prefix_sum(w, b + 1));
    }
}

proof fn lemma_weight_first_exists(w: Seq<u64>, u: int, k: int)
    requires
        1 <= k <= w.len(),
        u < prefix_sum(w, k),
    ensures
        exists|i: int| weight_first(w, u, i),
    decreases k,
{
    if forall|j: int| 1 <= j <= k - 1 ==> u >= #[trigger] prefix_sum(w, j) {
        assert(weight_first(w, u, k - 1));
    } else {
        let j = choose|j: int| 1 <= j <= k - 1 && u < #[trigger] prefix_sum(w, j);
        lemma_weight_first_exists(w, u, j);
    }
}

/// The draws in `0 .. total_weight(w)` that select index `i`.
pub open spec fn selecting(w: Seq<u64>, i: int) -> Set<int> {
    Set::new(|u: int| 0 <= u < total_weight(w) && weighted_index(w, u) == i)
}

/// Of the `total_weight(w)` draws `0 .. total_weight(w)`, index `i` is
/// selected by exactly `w[i]`: those from `prefix_sum(w, i)` up to
/// `prefix_sum(w, i + 1)`. A uniform draw thus selects `i` with probability
/// `w[i] / total_weight(w)`.
pub proof fn lemma_weighted_share(w: Seq<u64>, i: int)
    requires
        0 <= i < w.len(),
    ensures
        selecting(w, i) == set_int_range(prefix_sum(w, i), prefix_sum(w, i + 1)),
        selecting(w, i).finite(),
        selecting(w, i).len() == w[i],
{
    let lo = prefix_sum(w, i);
    let hi = prefix_sum(w, i + 1);
    lemma_prefix_mono(w, i + 1, w.len() as int);
    assert forall|u: int| selecting(w, i).contains(u) <==> set_int_range(lo, hi).contains(u) by {
        if lo <= u < hi {
            assert forall|j: int| 1 <= j <= i implies u >= #[trigger] prefix_sum(w, j) by {
                lemma_prefix_mono(w, j, i);
            }
            assert(weight_first(w, u, i));
            let c = choose|k: int| weight_first(w, u, k);
            lemma_weight_first_unique(w, u, i, c);
            lemma_prefix_mono(w, 0, i);
        }
        if 0 <= u < total_weight(w) && weighted_index(w, u) == i {
            lemma_weight_first_exists(w, u, w.len() as int);
            let c = choose|k: int| weight_first(w, u, k);
            assert(c == i);
            if i > 0 {
                assert(u >= prefix_sum(w, i));
            }
        }
    }
    assert(selecting(w, i) =~= set_int_range(lo, hi));
    lemma_int_range(lo, hi);
}


/// Why routing fails, as a value.
pub enum RouteFailure {
    TargetByIndexNotFound(usize),
    NoValidModel,
    WeightsOverflow,
}

pub open spec fn error_matches(e: RouterError, f: RouteFailure) -> bool {
    match f {
        RouteFailure::TargetByIndexNotFound(i) => e == RouterError::TargetByIndexNotFound(i),
        RouteFailure::NoValidModel => e is MetricRouterError && e->MetricRouterError_0@ == "No valid model found"@,
        RouteFailure::WeightsOverflow => e is WeightsOverflow,
    }
}

/// The models that targets name: each `model` value that is a string, in order.
pub open spec fn target_models(ts: Seq<TargetModel>) -> Seq<Seq<char>>
    decreases ts.len(),
{
    if ts.len() == 0 {
        Seq::empty()
    } else {
        target_models(ts.drop_last()) + match lookup(ts.last(), "model"@) {
            Some(JsonV::Str(m)) => seq![m],
            _ => Seq::empty(),
        }
    }
}

/// The target `{"model": m}`.
pub open spec fn model_target(m: Seq<char>) -> TargetModel {
    seq![("model"@, JsonV::Str(m))]
}

pub open spec fn duration_or_total(d: Option<MetricsDuration>) -> MetricsDuration {
    match d {
        Some(d) => d,
        None => MetricsDuration::Total,
    }
}

/// What a router yields for a draw `draw` from `0 .. draw_bound(m)`:
/// fallback, all targets; random, the drawn one; percentage, the one whose
/// weight interval holds the draw; optimized, `{"model": best}` for the
/// best model that the targets name, ranked in the router's time window
/// (all time by default) with the metric's own polarity.
pub open spec fn route_outcome(m: RouterModel, snap: Seq<(String, ProviderMetrics)>, draw: int) -> Result<Seq<TargetModel>, RouteFailure> {
    match m.strategy {
        StrategyModel::Fallback => Ok(m.targets),
        StrategyModel::Random => if m.targets.len() == 0 {
            Err(RouteFailure::TargetByIndexNotFound(0))
        } else {
            Ok(seq![m.targets[draw]])
        },
        StrategyModel::Percentage(w) => if total_weight(w) > u64::MAX {
            Err(RouteFailure::WeightsOverflow)
        } else {
            let i = weighted_index(w, draw);
            if i < m.targets.len() {
                Ok(seq![m.targets[i]])
            } else {
                Err(RouteFailure::TargetByIndexNotFound(i as usize))
            }
        },
        StrategyModel::Optimized(metric) => {
            let models = target_models(m.targets);
            match rank(models, snap, metric, duration_or_total(m.metrics_duration), metric.spec_minimize(), models.len()) {
                Some(best) => Ok(seq![model_target(best.0)]),
                None => Err(RouteFailure::NoValidModel),
            }
        },
    }
}

/// The number of values a router draws from: the targets for random, the
/// total weight for percentage, none otherwise.
pub open spec fn draw_bound(m: RouterModel) -> int {
    match m.strategy {
        StrategyModel::Random => m.targets.len() as int,
        StrategyModel::Percentage(w) => total_weight(w),
        _ => 0,
    }
}

/// `draw` is a draw that the router `m` may make: one of `0 .. draw_bound(m)`,
/// or 0 where it draws from nothing.
pub open spec fn draw_ok(m: RouterModel, draw: int) -> bool {
    if draw_bound(m) > 0 {
        0 <= draw < draw_bound(m)
    } else {
        draw == 0
    }
}

/// `r` is what the router `m` yields for the draw `draw`.
pub open spec fn routed(r: Result<Targets, RouterError>, m: RouterModel, snap: Seq<(String, ProviderMetrics)>, draw: int) -> bool {
    match route_outcome(m, snap, draw) {
        Ok(ts) => r is Ok && targets_model(r->Ok_0@) == ts,
        Err(f) => r is Err && error_matches(r->Err_0, f),
    }
}

/// A copy of a list of targets.
pub fn clone_targets(ts: &Vec<Target>) -> (r: Vec<Target>)
    ensures
        targets_model(r@) == targets_model(ts@),
{
    let mut w: Vec<Target> = Vec::new();
    let mut i: usize = 0;
    while i < ts.len()
        invariant
            i <= ts.len(),
            w.len() == i,
            forall|j: int| 0 <= j < i ==> entries_model((#[trigger] w[j])@) == entries_model(ts[j]@),
        decreases ts.len() - i,
    {
        w.push(clone_entries(&ts[i]));
        i += 1;
    }
    assert(targets_model(w@) =~= targets_model(ts@));
    w
}

/// Relies on rand::random_range: a value of `0..bound`, drawn from the
/// thread-local generator. It panics on an empty range, which `requires`
/// rules out.
#[verifier::external_body]
fn draw_below(bound: u64) -> (r: u64)
    requires
        bound > 0,
    ensures
        r < bound,
{
    rand::random_range(0..bound)
}

impl LlmRouter {
    /// The targets to try for the draw `draw`; see [`route_outcome`].
    pub fn route_with_draw(&self, metrics: &MetricsSnapshot, draw: u64) -> (r: Result<Targets, RouterError>)
        requires
            draw_bound(self.model()) > 0 ==> draw < draw_bound(self.model()),
        ensures
            routed(r, self.model(), metrics@, draw as int),
    {
        let ghost m = self.model();
        match &self.strategy {
            RoutingStrategy::Fallback => Ok(clone_targets(&self.targets)),
            RoutingStrategy::Random => {
                if self.targets.len() == 0 {
                    Err(RouterError::TargetByIndexNotFound(0))
                } else {
                    let t = clone_entries(&self.targets[draw as usize]);
                    let r = vec![t];
                    assert(targets_model(r@) =~= seq![m.targets[draw as int]]);
                    Ok(r)
                }
            },
            RoutingStrategy::Percentage { targets_percentages } => {
                match total_weight_exec(targets_percentages) {
                    None => Err(RouterError::WeightsOverflow),
                    Some(_) => {
                        let i = pick_weighted(targets_percentages, draw);
                        if i < self.targets.len() {
                            let t = clone_entries(&self.targets[i]);
                            let r = vec![t];
                            assert(targets_model(r@) =~= seq![m.targets[i as int]]);
                            Ok(r)
                        } else {
                            Err(RouterError::TargetByIndexNotFound(i))
                        }
                    },
                }
            },
            RoutingStrategy::Optimized { metric } => {
                let key = String::from_str("model");
                let mut models: Vec<String> = Vec::new();
                let mut i: usize = 0;
                while i < self.targets.len()
                    invariant
                        i <= self.targets.len(),
                        m == self.model(),
                        key@ == "model"@,
                        names(models@) == target_models(m.targets.take(i as int)),
                    decreases self.targets.len() - i,
                {
                    let ghost before = models@;
                    proof {
                        assert(m.targets.take(i as int + 1).drop_last() =~= m.targets.take(i as int));
                        assert(m.targets[i as int] == entries_model(self.targets[i as int]@));
                    }
                    match get_entry(&self.targets[i], &key) {
                        Some(Json::Str(name)) => {
                            models.push(name.clone());
                            assert(names(models@) =~= names(before).push(name@));
                        },
                        _ => {
                            assert(names(models@) =~= names(before));
                        },
                    }
                    i += 1;
                }
                assert(m.targets.take(self.targets.len() as int) =~= m.targets);
                let duration = match self.metrics_duration {
                    Some(d) => d,
                    None => MetricsDuration::Total,
                };
                match route_in(&models, metrics, metric, metric.minimize(), &duration) {
                    Ok(best) => {
                        let entry = (String::from_str("model"), Json::Str(best));
                        let r = vec![vec![entry]];
                        assert(entries_model(r@[0]@) =~= model_target(best@));
                        assert(targets_model(r@) =~= seq![model_target(best@)]);
                        Ok(r)
                    },
                    Err(e) => Err(e),
                }
            },
        }
    }

    /// The number of values the router draws from, where it fits a `u64`
    /// and is not zero; zero otherwise.
    pub fn draw_limit(&self) -> (r: u64)
        ensures
            0 < draw_bound(self.model()) <= u64::MAX ==> r == draw_bound(self.model()),
            !(0 < draw_bound(self.model()) <= u64::MAX) ==> r == 0,
    {
        match &self.strategy {
            RoutingStrategy::Random => self.targets.len() as u64,
            RoutingStrategy::Percentage { targets_percentages } => match total_weight_exec(targets_percentages) {
                Some(t) => t,
                None => 0,
            },
            _ => 0,
        }
    }

    /// The targets to try, in order: for random and percentage routers the
    /// draw is made here, uniformly from `0 .. draw_bound`.
    pub fn route(&self, metrics: &MetricsSnapshot) -> (r: Result<Targets, RouterError>)
        ensures
            exists|d: int|
                draw_ok(self.model(), d) && #[trigger] routed(r, self.model(), metrics@, d),
    {
        let bound = self.draw_limit();
        let draw: u64 = if bound > 0 {
            draw_below(bound)
        } else {
            0
        };
        let r = self.route_with_draw(metrics, draw);
        assert(routed(r, self.model(), metrics@, draw as int));
        r
    }
}


pub open spec fn str_of(j: Option<JsonV>) -> Option<Seq<char>> {
    match j {
        Some(JsonV::Str(s)) => Some(s),
        _ => None,
    }
}

/// A metric by its JSON name.
pub open spec fn metric_named(s: Seq<char>) -> Option<MetricSelector> {
    if s == "requests"@ {
        Some(MetricSelector::Requests)
    } else if s == "latency"@ {
        Some(MetricSelector::Latency)
    } else if s == "ttft"@ {
        Some(MetricSelector::Ttft)
    } else if s == "tps"@ {
        Some(MetricSelector::Tps)
    } else if s == "error_rate"@ {
        Some(MetricSelector::ErrorRate)
    } else {
        None
    }
}

/// A time window by its JSON name.
pub open spec fn duration_named(s: Seq<char>) -> Option<MetricsDuration> {
    if s == "total"@ {
        Some(MetricsDuration::Total)
    } else if s == "last_15_minutes"@ {
        Some(MetricsDuration::Last15Minutes)
    } else if s == "last_hour"@ {
        Some(MetricsDuration::LastHour)
    } else {
        None
    }
}

pub open spec fn weight_of(j: JsonV) -> Option<u64> {
    match j {
        JsonV::Number(t) => match decimal_micro(t) {
            Some(v) => if v <= u64::MAX {
                Some(v as u64)
            } else {
                None
            },
            None => None,
        },
        _ => None,
    }
}

/// Weights written as a JSON array of decimals, in millionths.
pub open spec fn weights_of(j: JsonV) -> Option<Seq<u64>> {
    match j {
        JsonV::Array(items) => if forall|i: int| 0 <= i < items.len() ==> (#[trigger] weight_of(items[i])) is Some {
            Some(Seq::new(items.len(), |i: int| weight_of(items[i])->Some_0))
        } else {
            None
        },
        _ => None,
    }
}

/// Targets written as a JSON array of objects.
pub open spec fn targets_of(j: JsonV) -> Option<Seq<TargetModel>> {
    match j {
        JsonV::Array(items) => if forall|i: int| 0 <= i < items.len() ==> (#[trigger] items[i]) is Object {
            Some(Seq::new(items.len(), |i: int| items[i]->Object_0))
        } else {
            None
        },
        _ => None,
    }
}

/// The strategy that a router object's `type` tag names, with its fields;
/// `a_b_testing` names the percentage strategy too.
pub open spec fn strategy_of(o: Seq<(Seq<char>, JsonV)>) -> Option<StrategyModel> {
    match str_of(lookup(o, "type"@)) {
        Some(t) => if t == "fallback"@ {
            Some(StrategyModel::Fallback)
        } else if t == "random"@ {
            Some(StrategyModel::Random)
        } else if t == "percentage"@ || t == "a_b_testing"@ {
            match lookup(o, "targets_percentages"@) {
                Some(w) => match weights_of(w) {
                    Some(ws) => Some(StrategyModel::Percentage(ws)),
                    None => None,
                },
                None => None,
            }
        } else if t == "optimized"@ {
            match str_of(lookup(o, "metric"@)) {
                Some(name) => match metric_named(name) {
                    Some(metric) => Some(StrategyModel::Optimized(metric)),
                    None => None,
                },
                None => None,
            }
        } else {
            None
        },
        None => None,
    }
}

/// The router that a JSON value describes: an object with a strategy (see
/// [`strategy_of`]), an optional `name` (`"dynamic"` by default), optional
/// `targets` (none by default) and an optional `metrics_duration`.
pub open spec fn router_of(j: JsonV) -> Option<RouterModel> {
    match j {
        JsonV::Object(o) => {
            let name = match lookup(o, "name"@) {
                None | Some(JsonV::Null) => Some("dynamic"@),
                Some(JsonV::Str(s)) => Some(s),
                _ => None,
            };
            let targets = match lookup(o, "targets"@) {
                None => Some(Seq::<TargetModel>::empty()),
                Some(t) => targets_of(t),
            };
            let duration = match lookup(o, "metrics_duration"@) {
                None | Some(JsonV::Null) => Some(None),
                Some(JsonV::Str(s)) => match duration_named(s) {
                    Some(d) => Some(Some(d)),
                    None => None,
                },
                _ => None,
            };
            match (name, strategy_of(o), targets, duration) {
                (Some(n), Some(st), Some(ts), Some(d)) => Some(
                    RouterModel { name: n, strategy: st, targets: ts, metrics_duration: d },
                ),
                _ => None,
            }
        },
        _ => None,
    }
}

fn metric_from_name(s: &String) -> (r: Option<MetricSelector>)
    ensures
        r == metric_named(s@),
{
    if is_text(s, "requests") {
        Some(MetricSelector::Requests)
    } else if is_text(s, "latency") {
        Some(MetricSelector::Latency)
    } else if is_text(s, "ttft") {
        Some(MetricSelector::Ttft)
    } else if is_text(s, "tps") {
        Some(MetricSelector::Tps)
    } else if is_text(s, "error_rate") {
        Some(MetricSelector::ErrorRate)
    } else {
        None
    }
}

fn duration_from_name(s: &String) -> (r: Option<MetricsDuration>)
    ensures
        r == duration_named(s@),
{
    if is_text(s, "total") {
        Some(MetricsDuration::Total)
    } else if is_text(s, "last_15_minutes") {
        Some(MetricsDuration::Last15Minutes)
    } else if is_text(s, "last_hour") {
        Some(MetricsDuration::LastHour)
    } else {
        None
    }
}

fn weights_from_json(j: &Json) -> (r: Option<Vec<u64>>)
    ensures
        match weights_of(j.model()) {
            Some(ws) => r is Some && r->Some_0@ == ws,
            None => r is None,
        },
{
    match j {
        Json::Array(items) => {
            let ghost m = j.model()->Array_0;
            let mut ws: Vec<u64> = Vec::new();
            let mut i: usize = 0;
            while i < items.len()
                invariant
                    i <= items.len(),
                    *j == Json::Array(*items),
                    m == j.model()->Array_0,
                    m.len() == items.len(),
                    forall|k: int| 0 <= k < items.len() ==> m[k] == (#[trigger] items[k]).model(),
                    ws.len() == i,
                    forall|k: int| 0 <= k < i ==> weight_of(#[trigger] m[k]) == Some(ws[k]),
                decreases items.len() - i,
            {
                let w = match &items[i] {
                    Json::Number(t) => parse_micro(t),
                    _ => None,
                };
                match w {
                    Some(v) => ws.push(v),
                    None => {
                        assert(weight_of(m[i as int]) is None);
                        return None;
                    },
                }
                i += 1;
            }
            assert(ws@ =~= Seq::new(m.len(), |k: int| weight_of(m[k])->Some_0));
            Some(ws)
        },
        _ => None,
    }
}

fn targets_from_json(j: &Json) -> (r: Option<Vec<Target>>)
    ensures
        match targets_of(j.model()) {
            Some(ts) => r is Some && targets_model(r->Some_0@) == ts,
            None => r is None,
        },
{
    match j {
        Json::Array(items) => {
            let ghost m = j.model()->Array_0;
            let mut ts: Vec<Target> = Vec::new();
            let mut i: usize = 0;
            while i < items.len()
                invariant
                    i <= items.len(),
                    *j == Json::Array(*items),
                    m == j.model()->Array_0,
                    m.len() == items.len(),
                    forall|k: int| 0 <= k < items.len() ==> m[k] == (#[trigger] items[k]).model(),
                    ts.len() == i,
                    forall|k: int| 0 <= k < i ==> (#[trigger] m[k]) is Object && m[k]->Object_0 == entries_model(ts[k]@),
                decreases items.len() - i,
            {
                match &items[i] {
                    Json::Object(o) => {
                        assert(m[i as int]->Object_0 =~= entries_model(o@));
                        ts.push(clone_entries(o));
                    },
                    _ => {
                        return None;
                    },
                }
                i += 1;
            }
            assert(targets_model(ts@) =~= Seq::new(m.len(), |k: int| m[k]->Object_0));
            Some(ts)
        },
        _ => None,
    }
}

fn strategy_from_object(o: &Vec<(String, Json)>) -> (r: Option<RoutingStrategy>)
    ensures
        match strategy_of(entries_model(o@)) {
            Some(st) => r is Some && r->Some_0.model() == st,
            None => r is None,
        },
{
    let tag = match get_entry(o, &String::from_str("type")) {
        Some(Json::Str(t)) => t,
        _ => {
            return None;
        },
    };
    if is_text(tag, "fallback") {
        Some(RoutingStrategy::Fallback)
    } else if is_text(tag, "random") {
        Some(RoutingStrategy::Random)
    } else if is_text(tag, "percentage") || is_text(tag, "a_b_testing") {
        match get_entry(o, &String::from_str("targets_percentages")) {
            Some(w) => match weights_from_json(w) {
                Some(ws) => Some(RoutingStrategy::Percentage { targets_percentages: ws }),
                None => None,
            },
            None => None,
        }
    } else if is_text(tag, "optimized") {
        match get_entry(o, &String::from_str("metric")) {
            Some(Json::Str(name)) => match metric_from_name(name) {
                Some(metric) => Some(RoutingStrategy::Optimized { metric }),
                None => None,
            },
            _ => None,
        }
    } else {
        None
    }
}

impl LlmRouter {
    /// The router that a JSON value describes; see [`router_of`].
    pub fn from_json(j: &Json) -> (r: Option<LlmRouter>)
        ensures
            match router_of(j.model()) {
                Some(m) => r is Some && r->Some_0.model() == m,
                None => r is None,
            },
    {
        let o = match j {
            Json::Object(o) => o,
            _ => {
                return None;
            },
        };
        assert(j.model()->Object_0 =~= entries_model(o@));
        let name = match get_entry(o, &String::from_str("name")) {
            None | Some(Json::Null) => String::from_str("dynamic"),
            Some(Json::Str(s)) => s.clone(),
            _ => {
                return None;
            },
        };
        let strategy = match strategy_from_object(o) {
            Some(st) => st,
            None => {
                return None;
            },
        };
        let targets = match get_entry(o, &String::from_str("targets")) {
            None => Vec::new(),
            Some(t) => match targets_from_json(t) {
                Some(ts) => ts,
                None => {
                    return None;
                },
            },
        };
        let metrics_duration = match get_entry(o, &String::from_str("metrics_duration")) {
            None | Some(Json::Null) => None,
            Some(Json::Str(s)) => match duration_from_name(s) {
                Some(d) => Some(d),
                None => {
                    return None;
                },
            },
            _ => {
                return None;
            },
        };
        let r = LlmRouter { name, strategy, targets, metrics_duration };
        proof {
            let o2 = j.model()->Object_0;
            assert(o2 == entries_model(o@));
            if lookup(o2, "targets"@) is None {
                assert(targets_model(r.targets@) =~= Seq::<TargetModel>::empty());
            }
            assert(strategy_of(o2) == Some(r.strategy.model()));
            assert(router_of(j.model()) is Some);
            assert(router_of(j.model())->Some_0.name == r.name@);
            assert(router_of(j.model())->Some_0.targets == targets_model(r.targets@));
            assert(router_of(j.model())->Some_0.metrics_duration == r.metrics_duration);
        }
        Some(r)
    }
}


/// `i` is the last position of `'/'` in `s`.
pub open spec fn slash_last(s: Seq<char>, i: int) -> bool {
    &&& 0 <= i < s.len()
    &&& s[i] == '/'
    &&& forall|j: int| i < j < s.len() ==> s[j] != '/'
}

/// The part of a model identifier after its last `'/'`: the router's name
/// in `router/<name>`, or the whole identifier where it has no `'/'`.
pub open spec fn router_name_of(model: Seq<char>) -> Seq<char> {
    if exists|i: int| slash_last(model, i) {
        model.skip((choose|i: int| slash_last(model, i)) + 1)
    } else {
        model
    }
}

/// The router name of a model identifier; see [`router_name_of`].
pub fn router_name(model: &str) -> (r: String)
    ensures
        r@ == router_name_of(model@),
{
    let n = model.unicode_len();
    let mut i: usize = n;
    while i > 0
        invariant
            i <= n,
            n == model@.len(),
            forall|j: int| i <= j < n ==> model@[j] != '/',
        decreases i,
    {
        if model.get_char(i - 1) == '/' {
            proof {
                assert(slash_last(model@, i - 1));
                let c = choose|k: int| slash_last(model@, k);
                assert(c == i - 1) by {
                    if c < i - 1 {
                        assert(model@[i - 1] != '/');
                    } else if c > i - 1 {
                        assert(model@[c] != '/');
                    }
                }
            }
            return String::from_str(model.substring_char(i, n));
        }
        i -= 1;
    }
    proof {
        assert forall|k: int| !slash_last(model@, k) by {
            if slash_last(model@, k) {
                assert(model@[k] != '/');
            }
        }
        assert(model@.skip(0) =~= model@);
    }
    String::from_str(model)
}

/// Whether a model identifier asks for routing: it starts with `router/`.
pub fn is_router_model(model: &str) -> (r: bool)
    ensures
        r == (model@.len() >= 7 && model@.take(7) == "router/"@),
{
    proof {
        reveal_strlit("router/");
    }
    let n = model.unicode_len();
    if n < 7 {
        return false;
    }
    let prefix = String::from_str(model.substring_char(0, 7));
    prefix == String::from_str("router/")
}

} // verus!
