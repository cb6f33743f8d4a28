//! Ranking candidate models by one metric of a snapshot.
use vstd::prelude::*;
use crate::metrics::{find_by_key, find_key, Metrics, MetricsSnapshot, ModelMetrics, ProviderMetrics};
use crate::routing::{MetricsDuration, RouterError};

verus! {

/// The metric that an optimizing router ranks by.
#[derive(Debug, Clone, Copy, PartialEq, Eq, Structural)]
pub enum MetricSelector {
    Requests,
    Latency,
    Ttft,
    Tps,
    ErrorRate,
}

impl Default for MetricSelector {
    fn default() -> (r: Self)
        ensures
            r == MetricSelector::Latency,
    {
        MetricSelector::Latency
    }
}

impl MetricSelector {
    pub open spec fn value_of(&self, m: Metrics) -> Option<u64> {
        match self {
            MetricSelector::Requests => m.requests,
            MetricSelector::Latency => m.latency,
            MetricSelector::Ttft => m.ttft,
            MetricSelector::Tps => m.tps,
            MetricSelector::ErrorRate => m.error_rate,
        }
    }

    /// The value of this metric in `metrics`.
    pub fn get_value(&self, metrics: &Metrics) -> (r: Option<u64>)
        ensures
            r == self.value_of(*metrics),
    {
        match self {
            MetricSelector::Requests => metrics.requests,
            MetricSelector::Latency => metrics.latency,
            MetricSelector::Ttft => metrics.ttft,
            MetricSelector::Tps => metrics.tps,
            MetricSelector::ErrorRate => metrics.error_rate,
        }
    }

    pub open spec fn spec_minimize(&self) -> bool {
        match self {
            MetricSelector::Latency | MetricSelector::Ttft | MetricSelector::ErrorRate => true,
            MetricSelector::Requests | MetricSelector::Tps => false,
        }
    }

    /// Whether lower is better: latency, time to first token and error rate
    /// are minimized, request count and throughput maximized.
    pub fn minimize(&self) -> (r: bool)
        ensures
            r == self.spec_minimize(),
    {
        match self {
            MetricSelector::Latency | MetricSelector::Ttft | MetricSelector::ErrorRate => true,
            MetricSelector::Requests | MetricSelector::Tps => false,
        }
    }
}

/// `a` ranks strictly before `b`.
pub open spec fn better(a: u64, b: u64, minimize: bool) -> bool {
    if minimize {
        a < b
    } else {
        a > b
    }
}

/// The best of a running choice and a new candidate; an equal candidate does
/// not displace the earlier one.
pub open spec fn pick(acc: Option<(Seq<char>, u64)>, x: Option<(Seq<char>, u64)>, minimize: bool) -> Option<(Seq<char>, u64)> {
    match x {
        None => acc,
        Some(xv) => match acc {
            None => x,
            Some(av) => if better(xv.1, av.1, minimize) {
                x
            } else {
                acc
            },
        },
    }
}

/// The metric value of `model` at one provider.
pub open spec fn provider_value(p: ProviderMetrics, model: Seq<char>, metric: MetricSelector, duration: MetricsDuration) -> Option<u64> {
    match find_key(p.models@, model) {
        Some(mm) => metric.value_of(duration.bucket(mm.metrics)),
        None => None,
    }
}

/// The metric value of `provider/model` in the snapshot.
pub open spec fn snapshot_value(snap: Seq<(String, ProviderMetrics)>, provider: Seq<char>, model: Seq<char>, metric: MetricSelector, duration: MetricsDuration) -> Option<u64> {
    match find_key(snap, provider) {
        Some(p) => provider_value(p, model, metric, duration),
        None => None,
    }
}

/// `provider/model`.
pub open spec fn qualified(provider: Seq<char>, model: Seq<char>) -> Seq<char> {
    provider + seq!['/'] + model
}

/// `a` comes before `b` in the order of their characters, which is the
/// order of their UTF-8 bytes.
pub open spec fn name_lt(a: Seq<char>, b: Seq<char>) -> bool
    decreases a.len(),
{
    if a.len() == 0 {
        b.len() > 0
    } else if b.len() == 0 {
        false
    } else if a[0] != b[0] {
        (a[0] as u32) < (b[0] as u32)
    } else {
        name_lt(a.drop_first(), b.drop_first())
    }
}

/// The better of two providers with their values; of equal values, the one
/// whose name comes first.
pub open spec fn pick_named(acc: Option<(Seq<char>, u64)>, x: Option<(Seq<char>, u64)>, minimize: bool) -> Option<(Seq<char>, u64)> {
    match x {
        None => acc,
        Some(xv) => match acc {
            None => x,
            Some(av) => if better(xv.1, av.1, minimize) || (xv.1 == av.1 && name_lt(xv.0, av.0)) {
                x
            } else {
                acc
            },
        },
    }
}

/// The best provider, by name, for a model name without provider among the
/// first `n` providers of the snapshot, with its value.
pub open spec fn best_at(snap: Seq<(String, ProviderMetrics)>, model: Seq<char>, metric: MetricSelector, duration: MetricsDuration, minimize: bool, n: nat) -> Option<(Seq<char>, u64)>
    decreases n,
{
    if n == 0 || n > snap.len() {
        None
    } else {
        let e = snap[n - 1];
        let here = match provider_value(e.1, model, metric, duration) {
            Some(v) => Some((e.0@, v)),
            None => None,
        };
        pick_named(best_at(snap, model, metric, duration, minimize, (n - 1) as nat), here, minimize)
    }
}

/// The best provider for a model name without provider, as the qualified
/// name and its value; of equal values, the provider whose name comes first.
pub open spec fn best_provider(snap: Seq<(String, ProviderMetrics)>, model: Seq<char>, metric: MetricSelector, duration: MetricsDuration, minimize: bool) -> Option<(Seq<char>, u64)> {
    match best_at(snap, model, metric, duration, minimize, snap.len()) {
        Some((p, v)) => Some((qualified(p, model), v)),
        None => None,
    }
}

/// Whether `a` comes before `b`; see [`name_lt`].
fn name_before(a: &String, b: &String) -> (r: bool)
    ensures
        r == name_lt(a@, b@),
{
    let sa = a.as_str();
    let sb = b.as_str();
    let na = sa.unicode_len();
    let nb = sb.unicode_len();
    let mut i: usize = 0;
    assert(a@.skip(0) =~= a@);
    assert(b@.skip(0) =~= b@);
    while i < na && i < nb
        invariant
            i <= na,
            i <= nb,
            na == a@.len(),
            nb == b@.len(),
            sa@ == a@,
            sb@ == b@,
            name_lt(a@, b@) == name_lt(a@.skip(i as int), b@.skip(i as int)),
        decreases na - i,
    {
        let ca = sa.get_char(i);
        let cb = sb.get_char(i);
        proof {
            assert(a@.skip(i as int)[0] == ca);
            assert(b@.skip(i as int)[0] == cb);
            assert(a@.skip(i as int).drop_first() =~= a@.skip(i as int + 1));
            assert(b@.skip(i as int).drop_first() =~= b@.skip(i as int + 1));
        }
        if ca != cb {
            return (ca as u32) < (cb as u32);
        }
        i += 1;
    }
    proof {
        assert(a@.skip(i as int).len() == na - i);
        assert(b@.skip(i as int).len() == nb - i);
    }
    i == na && i < nb
}

/// The position of the first `'/'` in `s`, where there is one.
pub open spec fn slash_first(s: Seq<char>, i: int) -> bool {
    &&& 0 <= i < s.len()
    &&& s[i] == '/'
    &&& forall|j: int| 0 <= j < i ==> s[j] != '/'
}

/// What one candidate contributes: `provider/model` is looked up at that
/// provider only; a bare model name at every provider that knows it.
pub open spec fn candidate_value(snap: Seq<(String, ProviderMetrics)>, c: Seq<char>, metric: MetricSelector, duration: MetricsDuration, minimize: bool) -> Option<(Seq<char>, u64)> {
    if exists|i: int| slash_first(c, i) {
        let i = choose|i: int| slash_first(c, i);
        match snapshot_value(snap, c.take(i), c.skip(i + 1), metric, duration) {
            Some(v) => Some((c, v)),
            None => None,
        }
    } else {
        best_provider(snap, c, metric, duration, minimize)
    }
}

/// The best of the first `n` candidates; of equal values the earliest.
pub open spec fn rank(models: Seq<Seq<char>>, snap: Seq<(String, ProviderMetrics)>, metric: MetricSelector, duration: MetricsDuration, minimize: bool, n: nat) -> Option<(Seq<char>, u64)>
    decreases n,
{
    if n == 0 || n > models.len() {
        None
    } else {
        pick(
            rank(models, snap, metric, duration, minimize, (n - 1) as nat),
            candidate_value(snap, models[n - 1], metric, duration, minimize),
            minimize,
        )
    }
}

/// The position of the first `'/'` of `s`.
fn find_slash(s: &str) -> (r: Option<usize>)
    ensures
        match r {
            Some(i) => slash_first(s@, i as int),
            None => !exists|i: int| slash_first(s@, i),
        },
{
    let n = s.unicode_len();
    let mut i: usize = 0;
    while i < n
        invariant
            i <= n,
            n == s@.len(),
            forall|j: int| 0 <= j < i ==> s@[j] != '/',
        decreases n - i,
    {
        if s.get_char(i) == '/' {
            return Some(i);
        }
        i += 1;
    }
    proof {
        assert forall|k: int| !slash_first(s@, k) by {
            if slash_first(s@, k) {
                assert(s@[k] != '/');
            }
        }
    }
    None
}

/// The choice of [`pick`], made.
fn pick_exec(acc: Option<(String, u64)>, x: Option<(String, u64)>, minimize: bool) -> (r: Option<(String, u64)>)
    ensures
        opt_view(r) == pick(opt_view(acc), opt_view(x), minimize),
{
    match x {
        None => acc,
        Some(xv) => match acc {
            None => Some(xv),
            Some(av) => if (minimize && xv.1 < av.1) || (!minimize && xv.1 > av.1) {
                Some(xv)
            } else {
                Some(av)
            },
        },
    }
}

/// The names held by a list of strings.
pub open spec fn names(models: Seq<String>) -> Seq<Seq<char>> {
    models.map_values(|s: String| s@)
}

pub open spec fn opt_view(o: Option<(String, u64)>) -> Option<(Seq<char>, u64)> {
    match o {
        Some(p) => Some((p.0@, p.1)),
        None => None,
    }
}

/// `provider/model`, made.
fn qualify(provider: &String, model: &String) -> (r: String)
    ensures
        r@ == qualified(provider@, model@),
{
    let mut r = provider.clone();
    let slash = "/";
    proof {
        reveal_strlit("/");
    }
    r.append(slash);
    r.append(model.as_str());
    r
}

/// The value of `model` at one provider, made.
fn provider_value_exec(p: &ProviderMetrics, model: &String, metric: &MetricSelector, duration: &MetricsDuration) -> (r: Option<u64>)
    ensures
        r == provider_value(*p, model@, *metric, *duration),
{
    match find_by_key(&p.models, model) {
        Some(mm) => metric.get_value(&duration.select(&mm.metrics)),
        None => None,
    }
}

/// `r` is what ranking `models` gives: the best one, or the error that
/// none has a value.
pub open spec fn ranked(r: Result<String, RouterError>, models: Seq<Seq<char>>, snap: Seq<(String, ProviderMetrics)>, metric: MetricSelector, duration: MetricsDuration, minimize: bool) -> bool {
    match rank(models, snap, metric, duration, minimize, models.len()) {
        Some(best) => r is Ok && r->Ok_0@ == best.0,
        None => r is Err && r->Err_0 is MetricRouterError && r->Err_0->MetricRouterError_0@ == "No valid model found"@,
    }
}

/// The best model of `models` by `metric` in one time window: each candidate
/// is `provider/model`, looked up at that provider only, or a bare model
/// name, looked up at every provider of the snapshot and qualified with the
/// best of them. Candidates without a value drop out; of equal values the
/// earliest wins.
pub fn route_in(
    models: &Vec<String>,
    metrics: &MetricsSnapshot,
    metric: &MetricSelector,
    minimize: bool,
    duration: &MetricsDuration,
) -> (r: Result<String, RouterError>)
    ensures
        ranked(r, names(models@), metrics@, *metric, *duration, minimize),
{
    let mut best: Option<(String, u64)> = None;
    let mut i: usize = 0;
    while i < models.len()
        invariant
            i <= models.len(),
            opt_view(best) == rank(names(models@), metrics@, *metric, *duration, minimize, i as nat),
        decreases models.len() - i,
    {
        let c = &models[i];
        let here: Option<(String, u64)> = match find_slash(c.as_str()) {
            Some(k) => {
                let n = c.as_str().unicode_len();
                let provider = String::from_str(c.as_str().substring_char(0, k));
                let name = String::from_str(c.as_str().substring_char(k + 1, n));
                let found = match find_by_key(metrics, &provider) {
                    Some(p) => provider_value_exec(p, &name, metric, duration),
                    None => None,
                };
                proof {
                    let ch = choose|j: int| slash_first(c@, j);
                    assert(ch == k as int) by {
                        if ch < k as int {
                            assert(c@[ch] != '/');
                        } else if ch > k as int {
                            assert(c@[k as int] != '/');
                        }
                    }
                    assert(provider@ =~= c@.take(k as int));
                    assert(name@ =~= c@.skip(k as int + 1));
                }
                match found {
                    Some(v) => Some((c.clone(), v)),
                    None => None,
                }
            },
            None => {
                let mut acc: Option<(usize, u64)> = None;
                let mut j: usize = 0;
                while j < metrics.len()
                    invariant
                        j <= metrics.len(),
                        match acc {
                            Some((a, v)) => a < j && best_at(metrics@, c@, *metric, *duration, minimize, j as nat) == Some((metrics@[a as int].0@, v)),
                            None => best_at(metrics@, c@, *metric, *duration, minimize, j as nat) is None,
                        },
                    decreases metrics.len() - j,
                {
                    let e = &metrics[j];
                    match provider_value_exec(&e.1, c, metric, duration) {
                        Some(v) => {
                            acc = match acc {
                                None => Some((j, v)),
                                Some((a, av)) => if (minimize && v < av) || (!minimize && v > av) || (v == av
                                    && name_before(&e.0, &metrics[a].0)) {
                                    Some((j, v))
                                } else {
                                    Some((a, av))
                                },
                            };
                        },
                        None => {},
                    }
                    j += 1;
                }
                match acc {
                    Some((a, v)) => Some((qualify(&metrics[a].0, c), v)),
                    None => None,
                }
            },
        };
        proof {
            assert(names(models@)[i as int] == models@[i as int]@);
            assert(opt_view(here) == candidate_value(metrics@, models@[i as int]@, *metric, *duration, minimize));
        }
        best = pick_exec(best, here, minimize);
        i += 1;
    }
    match best {
        Some(b) => Ok(b.0),
        None => {
            let msg = String::from_str("No valid model found");
            Err(RouterError::MetricRouterError(msg))
        },
    }
}

/// The best model of `models` by `metric` over all time, lowest first where
/// `minimize`, highest first otherwise.
pub fn route(
    models: &Vec<String>,
    metrics: &MetricsSnapshot,
    metric: &MetricSelector,
    minimize: bool,
) -> (r: Result<String, RouterError>)
    ensures
        ranked(r, names(models@), metrics@, *metric, MetricsDuration::Total, minimize),
{
    route_in(models, metrics, metric, minimize, &MetricsDuration::Total)
}

/// Ranking is a function of its inputs: two rankings of the same candidates
/// over the same snapshot choose the same model.
pub proof fn lemma_rank_idempotent(
    r1: Result<String, RouterError>,
    r2: Result<String, RouterError>,
    models: Seq<Seq<char>>,
    snap: Seq<(String, ProviderMetrics)>,
    metric: MetricSelector,
    duration: MetricsDuration,
    minimize: bool,
)
    requires
        ranked(r1, models, snap, metric, duration, minimize),
        ranked(r2, models, snap, metric, duration, minimize),
    ensures
        r1 is Ok <==> r2 is Ok,
        r1 is Ok ==> r1->Ok_0@ == r2->Ok_0@,
        r1 is Err ==> r1->Err_0 is MetricRouterError && r2->Err_0 is MetricRouterError,
{
}

/// Of two models of one provider, named with that provider, ranking by a
/// metric to minimize chooses the one with the lower value, in either order.
pub proof fn lemma_lower_value_wins(
    snap: Seq<(String, ProviderMetrics)>,
    provider: Seq<char>,
    a: Seq<char>,
    b: Seq<char>,
    metric: MetricSelector,
    duration: MetricsDuration,
    va: u64,
    vb: u64,
)
    requires
        forall|i: int| 0 <= i < provider.len() ==> provider[i] != '/',
        snapshot_value(snap, provider, a, metric, duration) == Some(va),
        snapshot_value(snap, provider, b, metric, duration) == Some(vb),
        va < vb,
    ensures
        rank(seq![qualified(provider, a), qualified(provider, b)], snap, metric, duration, true, 2)
            == Some((qualified(provider, a), va)),
        rank(seq![qualified(provider, b), qualified(provider, a)], snap, metric, duration, true, 2)
            == Some((qualified(provider, a), va)),
{
    lemma_qualified_value(snap, provider, a, metric, duration);
    lemma_qualified_value(snap, provider, b, metric, duration);
    reveal_with_fuel(rank, 3);
}

/// A qualified name is looked up at its provider.
proof fn lemma_qualified_value(snap: Seq<(String, ProviderMetrics)>, provider: Seq<char>, m: Seq<char>, metric: MetricSelector, duration: MetricsDuration)
    requires
        forall|i: int| 0 <= i < provider.len() ==> provider[i] != '/',
    ensures
        candidate_value(snap, qualified(provider, m), metric, duration, true) == match snapshot_value(snap, provider, m, metric, duration) {
            Some(v) => Some((qualified(provider, m), v)),
            None => None,
        },
{
    let c = qualified(provider, m);
    let n = provider.len() as int;
    assert(c[n] == '/');
    assert(slash_first(c, n));
    let k = choose|i: int| slash_first(c, i);
    assert(k == n) by {
        if k < n {
            assert(c[k] == provider[k]);
        } else if k > n {
            assert(c[n] == '/');
        }
    }
    assert(c.take(n) =~= provider);
    assert(c.skip(n + 1) =~= m);
}

} // verus!
