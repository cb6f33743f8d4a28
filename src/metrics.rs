//! A point-in-time snapshot of per-provider, per-model operational metrics.
use vstd::prelude::*;

verus! {

/// The metrics of one model over one time window. Each may be absent.
///
/// Latency and time to first token are in milliseconds, throughput in tokens
/// per second, and the error rate in millionths of the requests.
#[derive(Clone, Copy, Debug, PartialEq, Eq, Default)]
pub struct Metrics {
    pub requests: Option<u64>,
    pub latency: Option<u64>,
    pub ttft: Option<u64>,
    pub tps: Option<u64>,
    pub error_rate: Option<u64>,
}

/// The metrics of one model, in each time window.
#[derive(Clone, Copy, Debug, PartialEq, Eq, Default)]
pub struct TimeMetrics {
    pub total: Metrics,
    pub last_15_minutes: Metrics,
    pub last_hour: Metrics,
}

#[derive(Clone, Copy, Debug, PartialEq, Eq, Default)]
pub struct ModelMetrics {
    pub metrics: TimeMetrics,
}

/// The models that one provider serves, by name.
#[derive(Clone, Debug, Default)]
pub struct ProviderMetrics {
    pub models: Vec<(String, ModelMetrics)>,
}

/// Providers by name, each with its models' metrics.
pub type MetricsSnapshot = Vec<(String, ProviderMetrics)>;

/// `i` is the first position of key `k` in `o`.
pub open spec fn key_first<T>(o: Seq<(String, T)>, k: Seq<char>, i: int) -> bool {
    &&& 0 <= i < o.len()
    &&& o[i].0@ == k
    &&& forall|j: int| 0 <= j < i ==> o[j].0@ != k
}

/// The value of the first entry of `o` with key `k`.
pub open spec fn find_key<T>(o: Seq<(String, T)>, k: Seq<char>) -> Option<T> {
    if exists|i: int| key_first(o, k, i) {
        Some(o[choose|i: int| key_first(o, k, i)].1)
    } else {
        None
    }
}

/// The value of the first entry of `o` with key `key`.
pub fn find_by_key<'a, T>(o: &'a Vec<(String, T)>, key: &String) -> (r: Option<&'a T>)
    ensures
        match r {
            Some(v) => find_key(o@, key@) == Some(*v),
            None => find_key(o@, key@) is None,
        },
{
    let mut i: usize = 0;
    while i < o.len()
        invariant
            i <= o.len(),
            forall|j: int| 0 <= j < i ==> o@[j].0@ != key@,
        decreases o.len() - i,
    {
        if o[i].0 == *key {
            proof {
                let c = choose|j: int| key_first(o@, key@, j);
                assert(key_first(o@, key@, i as int));
                assert(c == i as int) by {
                    if c < i as int {
                    } else if c > i as int {
                    }
                }
            }
            return Some(&o[i].1);
        }
        i += 1;
    }
    None
}

} // verus!
