use llm_router::metric::{route, route_in, MetricSelector};
use llm_router::metrics::{Metrics, MetricsSnapshot, ModelMetrics, ProviderMetrics, TimeMetrics};
use llm_router::routing::{MetricsDuration, RouterError};

fn create_model_metrics(requests_duration: u64, ttft: u64) -> ModelMetrics {
    ModelMetrics {
        metrics: TimeMetrics {
            total: Metrics {
                requests: Some(100),
                latency: Some(requests_duration),
                ttft: Some(ttft),
                tps: Some(1),
                error_rate: Some(10000),
            },
            last_15_minutes: Metrics::default(),
            last_hour: Metrics::default(),
        },
    }
}

fn provider(models: Vec<(&str, ModelMetrics)>) -> ProviderMetrics {
    ProviderMetrics { models: models.into_iter().map(|(n, m)| (n.to_string(), m)).collect() }
}

fn names(v: &[&str]) -> Vec<String> {
    v.iter().map(|s| s.to_string()).collect()
}

#[test]
fn test_metric_router() {
    let metrics: MetricsSnapshot = vec![
        (
            "gemini".to_string(),
            provider(vec![
                ("gemini-1.5-flash-latest", create_model_metrics(500, 1000)),
                ("gemini-1.5-pro-latest", create_model_metrics(4500, 1100)),
            ]),
        ),
        (
            "openai".to_string(),
            provider(vec![
                ("gpt-4o", create_model_metrics(2550, 1900)),
                ("gpt-4o-mini", create_model_metrics(1550, 1800)),
            ]),
        ),
    ];
    let models = names(&[
        "openai/gpt-4o-mini",
        "gemini/gemini-1.5-flash-latest",
        "openai/gpt-4o",
        "gemini/gemini-1.5-pro-latest",
    ]);

    let new_model = route(&models, &metrics, &MetricSelector::Ttft, true).unwrap();
    assert_eq!(new_model, "gemini/gemini-1.5-flash-latest".to_string());

    // All models have the same request count, so the first one is selected.
    let new_model = route(&models, &metrics, &MetricSelector::Requests, false).unwrap();
    assert_eq!(new_model, "openai/gpt-4o-mini".to_string());
}

#[test]
fn test_metric_router_for_all_providers() {
    let metrics: MetricsSnapshot = vec![
        (
            "provider_a".to_string(),
            provider(vec![
                ("model_a", create_model_metrics(4550, 3800)),
                ("model_b", create_model_metrics(3550, 2900)),
            ]),
        ),
        (
            "provider_b".to_string(),
            provider(vec![
                ("model_a", create_model_metrics(1550, 1800)),
                ("model_c", create_model_metrics(2550, 1900)),
            ]),
        ),
        (
            "provider_c".to_string(),
            provider(vec![
                ("model_a", create_model_metrics(1950, 1200)),
                ("model_d", create_model_metrics(2950, 1700)),
            ]),
        ),
    ];
    let models = names(&["model_a", "provider_c/model_d"]);

    let new_model = route(&models, &metrics, &MetricSelector::Ttft, true).unwrap();
    assert_eq!(new_model, "provider_c/model_a".to_string());

    let new_model = route(&models, &metrics, &MetricSelector::Latency, true).unwrap();
    assert_eq!(new_model, "provider_b/model_a".to_string());
}

fn latency_snapshot(entries: &[(&str, &str, u64)]) -> MetricsSnapshot {
    let mut snap: MetricsSnapshot = Vec::new();
    for (p, m, latency) in entries {
        let mm = ModelMetrics {
            metrics: TimeMetrics {
                total: Metrics { latency: Some(*latency), ..Metrics::default() },
                ..TimeMetrics::default()
            },
        };
        match snap.iter_mut().find(|(name, _)| name == p) {
            Some((_, pm)) => pm.models.push((m.to_string(), mm)),
            None => snap.push((p.to_string(), provider(vec![(m, mm)]))),
        }
    }
    snap
}

#[test]
fn lower_latency_wins_when_minimizing() {
    let snap = latency_snapshot(&[("p", "a", 100), ("p", "b", 200)]);
    let models = names(&["p/a", "p/b"]);
    assert_eq!(route(&models, &snap, &MetricSelector::Latency, true).unwrap(), "p/a");
    let models = names(&["p/b", "p/a"]);
    assert_eq!(route(&models, &snap, &MetricSelector::Latency, true).unwrap(), "p/a");
}

#[test]
fn optimized_over_two_providers() {
    let snap = latency_snapshot(&[("openai", "gpt-4", 150), ("mistral", "mistral-large", 80)]);
    let models = names(&["openai/gpt-4", "mistral/mistral-large"]);
    assert_eq!(route(&models, &snap, &MetricSelector::Latency, true).unwrap(), "mistral/mistral-large");
}

#[test]
fn ranking_twice_gives_the_same_choice() {
    let snap = latency_snapshot(&[("x", "m", 50), ("y", "m", 50), ("x", "n", 70)]);
    let models = names(&["m", "x/n"]);
    let first = route(&models, &snap, &MetricSelector::Latency, true).unwrap();
    let second = route(&models, &snap, &MetricSelector::Latency, true).unwrap();
    assert_eq!(first, second);
    assert_eq!(first, "x/m");
}

#[test]
fn maximizing_prefers_the_highest_value() {
    let snap = latency_snapshot(&[("p", "a", 100), ("p", "b", 200)]);
    let models = names(&["p/a", "p/b"]);
    assert_eq!(route(&models, &snap, &MetricSelector::Latency, false).unwrap(), "p/b");
}

#[test]
fn candidates_without_values_drop_out() {
    let snap = latency_snapshot(&[("p", "a", 100)]);
    let models = names(&["q/a", "p/zzz", "nothing", "p/a"]);
    assert_eq!(route(&models, &snap, &MetricSelector::Latency, true).unwrap(), "p/a");
}

#[test]
fn no_candidate_with_a_value_is_an_error() {
    let snap = latency_snapshot(&[("p", "a", 100)]);
    let models = names(&["q/a", "b"]);
    assert_eq!(
        route(&models, &snap, &MetricSelector::Latency, true),
        Err(RouterError::MetricRouterError("No valid model found".to_string()))
    );
    assert_eq!(
        route(&Vec::new(), &snap, &MetricSelector::Latency, true),
        Err(RouterError::MetricRouterError("No valid model found".to_string()))
    );
}

#[test]
fn the_time_window_selects_the_bucket() {
    let mut snap = latency_snapshot(&[("p", "a", 100), ("p", "b", 200)]);
    snap[0].1.models[0].1.metrics.last_hour.latency = Some(900);
    snap[0].1.models[1].1.metrics.last_hour.latency = Some(300);
    let models = names(&["p/a", "p/b"]);
    let d = MetricsDuration::LastHour;
    assert_eq!(route_in(&models, &snap, &MetricSelector::Latency, true, &d).unwrap(), "p/b");
    assert_eq!(route_in(&models, &snap, &MetricSelector::Latency, true, &MetricsDuration::Total).unwrap(), "p/a");
}

#[test]
fn polarity_follows_the_metric() {
    assert!(MetricSelector::Latency.minimize());
    assert!(MetricSelector::Ttft.minimize());
    assert!(MetricSelector::ErrorRate.minimize());
    assert!(!MetricSelector::Requests.minimize());
    assert!(!MetricSelector::Tps.minimize());
    assert_eq!(MetricSelector::default(), MetricSelector::Latency);
}

#[test]
fn equal_values_across_providers_go_to_the_first_name() {
    // The snapshot lists "zeta" before "alpha"; the tie goes by name.
    let snap = latency_snapshot(&[("zeta", "m", 70), ("alpha", "m", 70), ("beta", "m", 90)]);
    let models = names(&["m"]);
    assert_eq!(route(&models, &snap, &MetricSelector::Latency, true).unwrap(), "alpha/m");
    let snap = latency_snapshot(&[("a-x", "m", 5), ("a", "m", 5)]);
    assert_eq!(route(&models, &snap, &MetricSelector::Latency, true).unwrap(), "a/m");
}
