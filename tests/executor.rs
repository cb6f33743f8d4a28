use llm_router::executor::{
    merge_request_with_target, ChatCompletionRequest, ResolutionStep, RoutedExecutor,
    RoutedExecutorError, MAX_DEPTH,
};
use llm_router::json::Json;
use llm_router::routing::Target;

fn text(v: &str) -> Json {
    Json::Str(v.to_string())
}

fn obj(entries: Vec<(&str, Json)>) -> Json {
    Json::Object(entries.into_iter().map(|(k, v)| (k.to_string(), v)).collect())
}

fn target(entries: Vec<(&str, Json)>) -> Json {
    obj(entries)
}

fn fields(entries: Vec<(&str, Json)>) -> Vec<(String, Json)> {
    entries.into_iter().map(|(k, v)| (k.to_string(), v)).collect()
}

fn get<'a>(r: &'a ChatCompletionRequest, key: &str) -> Option<&'a Json> {
    r.fields.iter().find(|(k, _)| k == key).map(|(_, v)| v)
}

fn fallback(models: &[&str]) -> Json {
    obj(vec![
        ("type", text("fallback")),
        ("targets", Json::Array(models.iter().map(|m| target(vec![("model", text(m))])).collect())),
    ])
}

fn request_with_router(router: Json) -> ChatCompletionRequest {
    ChatCompletionRequest {
        fields: fields(vec![
            ("model", text("router/dynamic")),
            ("messages", Json::Array(vec![obj(vec![("role", text("user")), ("content", text("hi"))])])),
            ("router", router),
        ]),
    }
}

fn executed_model(step: ResolutionStep) -> String {
    match step {
        ResolutionStep::Execute(r) => match get(&r, "model") {
            Some(Json::Str(m)) => m.clone(),
            other => panic!("model is {other:?}"),
        },
        other => panic!("expected a leaf, got {other:?}"),
    }
}

#[test]
fn merge_replaces_non_null_keys_and_keeps_the_rest() {
    let request = ChatCompletionRequest {
        fields: fields(vec![("model", text("a/b")), ("messages", Json::Array(vec![])), ("temperature", Json::Number("0.1".to_string())), ("stream", Json::Bool(true))]),
    };
    let t: Target = fields(vec![
        ("model", text("c/d")),
        ("temperature", Json::Null),
        ("max_tokens", Json::Number("10".to_string())),
    ]);
    let merged = merge_request_with_target(&request, &t).unwrap();
    assert_eq!(get(&merged, "model"), Some(&text("c/d")));
    assert_eq!(get(&merged, "temperature"), Some(&Json::Number("0.1".to_string())));
    assert_eq!(get(&merged, "stream"), Some(&Json::Bool(true)));
    assert_eq!(get(&merged, "max_tokens"), Some(&Json::Number("10".to_string())));
    assert_eq!(merged.fields.len(), 5);
}

#[test]
fn merge_that_breaks_the_request_fails() {
    let request = ChatCompletionRequest { fields: fields(vec![("model", text("a/b")), ("messages", Json::Array(vec![]))]) };
    let t: Target = fields(vec![("model", Json::Number("3".to_string()))]);
    assert_eq!(merge_request_with_target(&request, &t).err(), Some(RoutedExecutorError::FailedToSerializeMergedRequestResult));
    let t: Target = fields(vec![("router", obj(vec![("type", text("nonsense"))]))]);
    assert_eq!(merge_request_with_target(&request, &t).err(), Some(RoutedExecutorError::FailedToSerializeMergedRequestResult));
    let t: Target = fields(vec![("messages", Json::Number("5".to_string()))]);
    assert_eq!(merge_request_with_target(&request, &t).err(), Some(RoutedExecutorError::FailedToSerializeMergedRequestResult));
    let bare = ChatCompletionRequest { fields: fields(vec![("model", text("a/b"))]) };
    assert_eq!(merge_request_with_target(&bare, &Vec::new()).err(), Some(RoutedExecutorError::FailedToSerializeMergedRequestResult));
}

#[test]
fn merge_reads_a_target_by_the_first_entry_of_each_key() {
    let request = ChatCompletionRequest { fields: fields(vec![("model", text("a/b")), ("messages", Json::Array(vec![]))]) };
    let t: Target = fields(vec![("model", text("c/d")), ("model", text("e/f")), ("seed", Json::Null), ("seed", Json::Number("1".to_string()))]);
    let merged = merge_request_with_target(&request, &t).unwrap();
    assert_eq!(get(&merged, "model"), Some(&text("c/d")));
    assert_eq!(get(&merged, "seed"), None);
}

#[test]
fn request_without_router_is_its_own_leaf() {
    let request = ChatCompletionRequest { fields: fields(vec![("model", text("openai/gpt-4o"))]) };
    let mut res = RoutedExecutor::new(request).start();
    assert_eq!(executed_model(res.step(&Vec::new())), "openai/gpt-4o");
    assert!(!res.has_pending());
    assert!(matches!(res.step(&Vec::new()), ResolutionStep::Failed(RoutedExecutorError::NoRouteFound)));
    assert_eq!(res.leaf_failed("last error"), Err("last error"));
}

#[test]
fn single_fallback_first_succeeds() {
    let mut res = RoutedExecutor::new(request_with_router(fallback(&["openai/gpt-4o-mini", "openai/gpt-4o"]))).start();
    assert!(matches!(res.step(&Vec::new()), ResolutionStep::Expanded(2)));
    // The first leaf succeeds upstream, so it is the only one executed.
    assert_eq!(executed_model(res.step(&Vec::new())), "openai/gpt-4o-mini");
}

#[test]
fn fallback_traverses_on_error() {
    let mut res = RoutedExecutor::new(request_with_router(fallback(&["openai/gpt-4o-mini", "openai/gpt-4o"]))).start();
    assert!(matches!(res.step(&Vec::new()), ResolutionStep::Expanded(2)));
    assert_eq!(executed_model(res.step(&Vec::new())), "openai/gpt-4o-mini");
    // gpt-4o-mini failed upstream: another frame is pending, so go on.
    assert!(res.has_pending());
    assert_eq!(res.leaf_failed("500"), Ok(()));
    assert_eq!(executed_model(res.step(&Vec::new())), "openai/gpt-4o");
    assert!(!res.has_pending());
}

#[test]
fn fallback_where_all_fail_tries_each_once_in_order() {
    let models = ["p/1", "p/2", "p/3", "p/4"];
    let mut res = RoutedExecutor::new(request_with_router(fallback(&models))).start();
    assert!(matches!(res.step(&Vec::new()), ResolutionStep::Expanded(4)));
    for m in models {
        assert_eq!(executed_model(res.step(&Vec::new())), m);
    }
    // Nothing is pending after the last failure, which is the one reported.
    assert!(!res.has_pending());
    assert_eq!(res.leaf_failed("p/4 failed"), Err("p/4 failed"));
}

#[test]
fn leaves_inherit_the_request_without_its_router() {
    let mut res = RoutedExecutor::new(request_with_router(fallback(&["openai/gpt-4o"]))).start();
    res.step(&Vec::new());
    match res.step(&Vec::new()) {
        ResolutionStep::Execute(r) => {
            assert_eq!(get(&r, "router"), Some(&Json::Null));
            assert!(matches!(get(&r, "messages"), Some(Json::Array(m)) if m.len() == 1));
        },
        other => panic!("{other:?}"),
    }
}

#[test]
fn nested_router_is_resolved_depth_first() {
    let t1 = target(vec![("model", text("y/one"))]);
    let t2 = target(vec![("model", text("y/two")), ("router", fallback(&["x/a", "x/b"]))]);
    let outer = obj(vec![("type", text("random")), ("targets", Json::Array(vec![t1, t2]))]);
    let mut res = RoutedExecutor::new(request_with_router(outer)).start();
    // The draw picks index 1.
    assert!(matches!(res.step_with_draw(&Vec::new(), 1), ResolutionStep::Expanded(1)));
    assert_eq!(res.depth(), 1);
    assert!(matches!(res.step(&Vec::new()), ResolutionStep::Expanded(2)));
    assert_eq!(res.depth(), 2);
    assert_eq!(executed_model(res.step(&Vec::new())), "x/a");
    assert_eq!(executed_model(res.step(&Vec::new())), "x/b");
    assert!(!res.has_pending());
}

#[test]
fn siblings_wait_for_a_nested_router() {
    let t1 = target(vec![("router", fallback(&["x/a", "x/b"]))]);
    let t2 = target(vec![("model", text("y/c"))]);
    let outer = obj(vec![("type", text("fallback")), ("targets", Json::Array(vec![t1, t2]))]);
    let mut res = RoutedExecutor::new(request_with_router(outer)).start();
    assert!(matches!(res.step(&Vec::new()), ResolutionStep::Expanded(2)));
    assert!(matches!(res.step(&Vec::new()), ResolutionStep::Expanded(2)));
    assert_eq!(executed_model(res.step(&Vec::new())), "x/a");
    assert_eq!(executed_model(res.step(&Vec::new())), "x/b");
    assert_eq!(executed_model(res.step(&Vec::new())), "y/c");
}

#[test]
fn router_errors_are_skipped() {
    let broken = target(vec![("router", obj(vec![("type", text("random")), ("targets", Json::Array(vec![]))]))]);
    let good = target(vec![("model", text("y/c"))]);
    let outer = obj(vec![("type", text("fallback")), ("targets", Json::Array(vec![broken, good]))]);
    let mut res = RoutedExecutor::new(request_with_router(outer)).start();
    assert!(matches!(res.step(&Vec::new()), ResolutionStep::Expanded(2)));
    assert!(matches!(res.step(&Vec::new()), ResolutionStep::RouterFailed(_)));
    assert_eq!(executed_model(res.step(&Vec::new())), "y/c");
}

#[test]
fn depth_is_bounded() {
    let models: Vec<String> = (0..12).map(|i| format!("p/{i}")).collect();
    let refs: Vec<&str> = models.iter().map(|s| s.as_str()).collect();
    let mut res = RoutedExecutor::new(request_with_router(fallback(&refs))).start();
    res.step(&Vec::new());
    for _ in 1..MAX_DEPTH {
        assert!(matches!(res.step(&Vec::new()), ResolutionStep::Execute(_)));
    }
    assert!(matches!(res.step(&Vec::new()), ResolutionStep::Failed(RoutedExecutorError::MaxDepthReached)));
}

#[test]
fn invalid_embedded_router_fails() {
    let mut res = RoutedExecutor::new(request_with_router(obj(vec![("type", text("unknown"))]))).start();
    assert!(matches!(res.step(&Vec::new()), ResolutionStep::Failed(RoutedExecutorError::FailedToDeserializeRequestResult)));
}
