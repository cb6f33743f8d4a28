use llm_router::json::{parse_micro, Json};
use llm_router::metric::MetricSelector;
use llm_router::metrics::{Metrics, MetricsSnapshot, ModelMetrics, ProviderMetrics, TimeMetrics};
use llm_router::routing::{
    is_router_model, pick_weighted, router_name, total_weight_exec, LlmRouter, MetricsDuration,
    RouterError, RoutingStrategy, Target,
};

fn text(v: &str) -> Json {
    Json::Str(v.to_string())
}

fn num(v: &str) -> Json {
    Json::Number(v.to_string())
}

fn obj(entries: Vec<(&str, Json)>) -> Json {
    Json::Object(entries.into_iter().map(|(k, v)| (k.to_string(), v)).collect())
}

fn target(model: &str) -> Target {
    vec![("model".to_string(), text(model))]
}

fn router(strategy: RoutingStrategy, targets: Vec<Target>) -> LlmRouter {
    LlmRouter { name: "test".to_string(), strategy, targets, metrics_duration: None }
}

#[test]
fn test_metrics_repository_integration() {
    let metrics: MetricsSnapshot = vec![(
        "openai".to_string(),
        ProviderMetrics {
            models: vec![(
                "gpt-4".to_string(),
                ModelMetrics {
                    metrics: TimeMetrics {
                        total: Metrics {
                            requests: Some(100),
                            latency: Some(150),
                            ttft: Some(50),
                            tps: Some(20),
                            error_rate: Some(10000),
                        },
                        last_15_minutes: Metrics::default(),
                        last_hour: Metrics::default(),
                    },
                },
            )],
        },
    )];
    let router = LlmRouter {
        name: "test_router".to_string(),
        strategy: RoutingStrategy::Optimized { metric: MetricSelector::Latency },
        targets: vec![target("openai/gpt-4")],
        metrics_duration: Some(MetricsDuration::Total),
    };
    let result = router.route(&metrics);
    assert!(result.is_ok());
    let targets = result.unwrap();
    assert_eq!(targets.len(), 1);
    assert_eq!(targets[0], vec![("model".to_string(), text("openai/gpt-4"))]);
}

#[test]
fn fallback_returns_all_targets_in_order() {
    let r = router(RoutingStrategy::Fallback, vec![target("openai/gpt-4o-mini"), target("openai/gpt-4o")]);
    let out = r.route(&Vec::new()).unwrap();
    assert_eq!(out, vec![target("openai/gpt-4o-mini"), target("openai/gpt-4o")]);
}

#[test]
fn random_picks_the_drawn_target() {
    let r = router(RoutingStrategy::Random, vec![target("a/x"), target("b/y"), target("c/z")]);
    assert_eq!(r.route_with_draw(&Vec::new(), 1).unwrap(), vec![target("b/y")]);
    for _ in 0..50 {
        let out = r.route(&Vec::new()).unwrap();
        assert_eq!(out.len(), 1);
        assert!(r.targets.contains(&out[0]));
    }
}

#[test]
fn random_without_targets_fails() {
    let r = router(RoutingStrategy::Random, vec![]);
    assert_eq!(r.route(&Vec::new()), Err(RouterError::TargetByIndexNotFound(0)));
}

#[test]
fn weighted_pick_follows_the_intervals() {
    let w = vec![200000u64, 800000];
    assert_eq!(pick_weighted(&w, 0), 0);
    assert_eq!(pick_weighted(&w, 199999), 0);
    assert_eq!(pick_weighted(&w, 200000), 1);
    assert_eq!(pick_weighted(&w, 999999), 1);
    assert_eq!(pick_weighted(&vec![0, 0, 0], 0), 2);
    assert_eq!(pick_weighted(&vec![], 0), 0);
    assert_eq!(total_weight_exec(&w), Some(1000000));
    assert_eq!(total_weight_exec(&vec![u64::MAX, 1]), None);
}

#[test]
fn percentage_uniform_draws_split_by_weight() {
    // 10 000 uniform draws over the total weight: index 1 is chosen for
    // exactly its share of them, well within 800/1000 +- 3 sigma.
    let r = router(
        RoutingStrategy::Percentage { targets_percentages: vec![200000, 800000] },
        vec![target("a/x"), target("b/y")],
    );
    let mut second = 0u32;
    for trial in 0..10000u64 {
        let draw = trial * 100;
        let out = r.route_with_draw(&Vec::new(), draw).unwrap();
        if out[0] == target("b/y") {
            second += 1;
        }
    }
    assert!((7880..=8120).contains(&second));
    assert_eq!(second, 8000);
}

#[test]
fn percentage_random_draws_split_by_weight() {
    let r = router(
        RoutingStrategy::Percentage { targets_percentages: vec![200000, 800000] },
        vec![target("a/x"), target("b/y")],
    );
    let mut second = 0u32;
    for _ in 0..10000 {
        if r.route(&Vec::new()).unwrap()[0] == target("b/y") {
            second += 1;
        }
    }
    // Within 800/1000 +- 3 sigma (sigma = 40 over 10 000 trials).
    assert!((7880..=8120).contains(&second), "{second}");
}

#[test]
fn percentage_with_missing_target_fails() {
    let r = router(RoutingStrategy::Percentage { targets_percentages: vec![1, 1] }, vec![target("a/x")]);
    assert_eq!(r.route_with_draw(&Vec::new(), 1), Err(RouterError::TargetByIndexNotFound(1)));
}

#[test]
fn percentage_weights_that_overflow_fail() {
    let r = router(RoutingStrategy::Percentage { targets_percentages: vec![u64::MAX, 1] }, vec![target("a/x")]);
    assert_eq!(r.route(&Vec::new()), Err(RouterError::WeightsOverflow));
}

#[test]
fn optimized_keeps_only_the_model() {
    let mut t = target("p/slow");
    t.push(("temperature".to_string(), num("0.5")));
    let snap: MetricsSnapshot = vec![(
        "p".to_string(),
        ProviderMetrics {
            models: vec![
                ("slow".to_string(), ModelMetrics { metrics: TimeMetrics { total: Metrics { latency: Some(9), ..Metrics::default() }, ..TimeMetrics::default() } }),
                ("fast".to_string(), ModelMetrics { metrics: TimeMetrics { total: Metrics { latency: Some(3), ..Metrics::default() }, ..TimeMetrics::default() } }),
            ],
        },
    )];
    let r = router(RoutingStrategy::Optimized { metric: MetricSelector::Latency }, vec![t, target("p/fast")]);
    assert_eq!(r.route(&snap).unwrap(), vec![target("p/fast")]);
    let empty = router(RoutingStrategy::Optimized { metric: MetricSelector::Latency }, vec![]);
    assert_eq!(empty.route(&snap), Err(RouterError::MetricRouterError("No valid model found".to_string())));
}

#[test]
fn router_from_json() {
    let j = obj(vec![
        ("name", text("ab")),
        ("type", text("a_b_testing")),
        ("targets", Json::Array(vec![obj(vec![("model", text("openai/gpt-4o-mini"))]), obj(vec![("model", text("openai/gpt-4o"))])])),
        ("targets_percentages", Json::Array(vec![num("2e-1"), num("0.8")])),
        ("metrics_duration", text("last_hour")),
    ]);
    let r = LlmRouter::from_json(&j).unwrap();
    assert_eq!(r.name, "ab");
    assert_eq!(r.strategy.as_str(), "Percentage");
    match &r.strategy {
        RoutingStrategy::Percentage { targets_percentages } => assert_eq!(targets_percentages, &vec![200000, 800000]),
        _ => panic!("not a percentage router"),
    }
    assert_eq!(r.targets, vec![target("openai/gpt-4o-mini"), target("openai/gpt-4o")]);
    assert_eq!(r.metrics_duration, Some(MetricsDuration::LastHour));

    let j = obj(vec![("type", text("optimized")), ("metric", text("error_rate"))]);
    let r = LlmRouter::from_json(&j).unwrap();
    assert_eq!(r.name, "dynamic");
    assert!(r.targets.is_empty());
    assert!(matches!(r.strategy, RoutingStrategy::Optimized { metric: MetricSelector::ErrorRate }));

    assert!(LlmRouter::from_json(&obj(vec![("type", text("fallback"))])).is_some());
    assert!(LlmRouter::from_json(&obj(vec![("type", text("random")), ("name", Json::Null)])).is_some());
    assert!(LlmRouter::from_json(&obj(vec![("type", text("script"))])).is_none());
    assert!(LlmRouter::from_json(&obj(vec![("type", text("optimized")), ("metric", text("cost"))])).is_none());
    assert!(LlmRouter::from_json(&obj(vec![("type", text("percentage"))])).is_none());
    assert!(LlmRouter::from_json(&obj(vec![("type", text("fallback")), ("targets", Json::Array(vec![text("x")]))])).is_none());
    assert!(LlmRouter::from_json(&text("fallback")).is_none());
}

#[test]
fn strategy_names_and_default() {
    assert_eq!(RoutingStrategy::Fallback.as_str(), "Fallback");
    assert_eq!(RoutingStrategy::Random.as_str(), "Random");
    assert_eq!(RoutingStrategy::Optimized { metric: MetricSelector::Tps }.as_str(), "Optimized");
    assert!(matches!(RoutingStrategy::default(), RoutingStrategy::Optimized { metric: MetricSelector::Latency }));
}

#[test]
fn decimals_in_millionths() {
    assert_eq!(parse_micro(&"20".to_string()), Some(20000000));
    assert_eq!(parse_micro(&"0.2".to_string()), Some(200000));
    assert_eq!(parse_micro(&"0.1234567".to_string()), Some(123456));
    assert_eq!(parse_micro(&"1.5".to_string()), Some(1500000));
    assert_eq!(parse_micro(&"999999999999.999999".to_string()), Some(999999999999999999));
    assert_eq!(parse_micro(&"1000000000000".to_string()), None);
    assert_eq!(parse_micro(&"-1".to_string()), None);
    assert_eq!(parse_micro(&"1e3".to_string()), Some(1000000000));
    assert_eq!(parse_micro(&".5".to_string()), None);
    assert_eq!(parse_micro(&"5.".to_string()), None);
    assert_eq!(parse_micro(&"".to_string()), None);
    assert_eq!(parse_micro(&"1e-5".to_string()), Some(10));
    assert_eq!(parse_micro(&"2.5E3".to_string()), Some(2500000000));
    assert_eq!(parse_micro(&"1e+2".to_string()), Some(100000000));
    assert_eq!(parse_micro(&"5e-7".to_string()), Some(0));
    assert_eq!(parse_micro(&"1.23456789e2".to_string()), Some(123456789));
    assert_eq!(parse_micro(&"1e12".to_string()), None);
    assert_eq!(parse_micro(&"1e".to_string()), None);
    assert_eq!(parse_micro(&"1e12345".to_string()), None);
}

#[test]
fn router_names_of_model_identifiers() {
    assert_eq!(router_name("router/dynamic"), "dynamic");
    assert_eq!(router_name("a/b/c"), "c");
    assert_eq!(router_name("plain"), "plain");
    assert_eq!(router_name("trailing/"), "");
    assert!(is_router_model("router/dynamic"));
    assert!(!is_router_model("openai/gpt-4o"));
    assert!(!is_router_model("router"));
}

#[test]
fn zero_weights_select_the_last_target() {
    let r = router(RoutingStrategy::Percentage { targets_percentages: vec![0, 0] }, vec![target("a/x"), target("b/y")]);
    assert_eq!(r.route(&Vec::new()).unwrap(), vec![target("b/y")]);
}
