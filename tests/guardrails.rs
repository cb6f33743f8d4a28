use llm_router::guardrails::{
    check_streaming, enforce, guards_for_stage, judge_model, GuardAction, GuardConfig, GuardDefinition, GuardError,
    GuardResult, GuardStage,
};
use llm_router::json::Json;
use llm_router::llm_judge::{
    extract_text_content, interpret_json_response, judge_messages, judge_reply, judge_result, judge_template, ChatCompletionContent,
    ChatCompletionMessage, Content, ContentType,
};
use llm_router::mcp::{validate_server_name, McpServerError};

fn config(stage: GuardStage, action: GuardAction) -> GuardConfig {
    GuardConfig {
        definition_id: "g-id".to_string(),
        definition_name: "g-name".to_string(),
        description: None,
        stage,
        action,
    }
}

fn schema_guard(stage: GuardStage, action: GuardAction) -> GuardDefinition {
    GuardDefinition::Schema { config: config(stage, action), schema: Json::Null }
}

fn obj(entries: Vec<(&str, Json)>) -> Json {
    Json::Object(entries.into_iter().map(|(k, v)| (k.to_string(), v)).collect())
}

fn strs(v: &[&str]) -> Json {
    Json::Array(v.iter().map(|s| Json::Str(s.to_string())).collect())
}

#[test]
fn validate_guard_that_fails_stops_the_request() {
    let g = schema_guard(GuardStage::Input, GuardAction::Validate);
    let r = enforce(&g, Ok(GuardResult::Boolean { passed: false, confidence: None }));
    assert_eq!(r, Err(GuardError::RequestStoppedAfterGuardEvaluation("g-name".to_string())));
    let r = enforce(&g, Ok(GuardResult::Boolean { passed: true, confidence: None }));
    assert_eq!(r, Ok(GuardResult::Boolean { passed: true, confidence: None }));
}

#[test]
fn judge_guard_stops_under_its_name() {
    let g = GuardDefinition::LlmJudge {
        config: config(GuardStage::Input, GuardAction::Validate),
        model: "m".to_string(),
        system_prompt: None,
        user_prompt_template: "t".to_string(),
        parameters: Json::Null,
    };
    let r = enforce(&g, Ok(GuardResult::Boolean { passed: false, confidence: None }));
    assert_eq!(r, Err(GuardError::RequestStoppedAfterGuardEvaluation("g-name".to_string())));
}

#[test]
fn observe_guard_never_stops() {
    let g = schema_guard(GuardStage::Input, GuardAction::Observe);
    let r = enforce(&g, Ok(GuardResult::Text { text: "x".to_string(), passed: false, confidence: Some(1) }));
    assert_eq!(r, Ok(GuardResult::Text { text: "x".to_string(), passed: false, confidence: Some(1) }));
}

#[test]
fn evaluator_errors_become_guard_errors() {
    let g = schema_guard(GuardStage::Input, GuardAction::Observe);
    assert_eq!(enforce(&g, Err("judge down".to_string())), Err(GuardError::GuardEvaluationError("judge down".to_string())));
}

#[test]
fn output_guards_refuse_streaming() {
    let guards = vec![schema_guard(GuardStage::Input, GuardAction::Validate), schema_guard(GuardStage::Output, GuardAction::Observe)];
    assert_eq!(check_streaming(&guards, true), Err(GuardError::OutputGuardrailsNotSupportedInStreaming));
    assert_eq!(check_streaming(&guards, false), Ok(()));
    assert_eq!(check_streaming(&vec![schema_guard(GuardStage::Input, GuardAction::Observe)], true), Ok(()));
    assert_eq!(guards_for_stage(&guards, GuardStage::Output), vec![1]);
    assert_eq!(guards_for_stage(&guards, GuardStage::Input), vec![0]);
}

#[test]
fn definition_accessors() {
    let g = GuardDefinition::LlmJudge {
        config: config(GuardStage::Output, GuardAction::Validate),
        model: "openai/gpt-4o-mini".to_string(),
        system_prompt: None,
        user_prompt_template: "{{input}}".to_string(),
        parameters: obj(vec![("threshold", Json::Number("0.5".to_string()))]),
    };
    assert_eq!(*g.stage(), GuardStage::Output);
    assert_eq!(*g.action(), GuardAction::Validate);
    assert_eq!(g.id(), "g-id");
    assert_eq!(g.name(), "g-name");
    assert_eq!(judge_model(&g), Ok(&"openai/gpt-4o-mini".to_string()));
    assert_eq!(judge_model(&schema_guard(GuardStage::Input, GuardAction::Observe)), Err("Guard definition is not a LlmJudge".to_string()));
    assert_eq!(g.schema(), &obj(vec![("threshold", Json::Number("0.5".to_string()))]));
    let s = schema_guard(GuardStage::Input, GuardAction::Observe);
    assert_eq!(s.name(), "g-name");
}

#[test]
fn judge_passed_field_decides() {
    let params = Json::Null;
    let j = obj(vec![("passed", Json::Bool(false)), ("confidence", Json::Number("0.75".to_string()))]);
    assert_eq!(interpret_json_response(&j, "t".to_string(), &params), GuardResult::Boolean { passed: false, confidence: Some(750000) });
    let j = obj(vec![("passed", Json::Bool(true)), ("details", Json::Str("fine".to_string()))]);
    assert_eq!(interpret_json_response(&j, "t".to_string(), &params), GuardResult::Text { text: "fine".to_string(), passed: true, confidence: None });
}

#[test]
fn judge_toxicity() {
    let params = obj(vec![("threshold", Json::Number("0.5".to_string()))]);
    let j = obj(vec![("toxic", Json::Bool(true)), ("confidence", Json::Number("0.9".to_string()))]);
    assert_eq!(interpret_json_response(&j, "t".to_string(), &params), GuardResult::Boolean { passed: false, confidence: Some(900000) });
    // Without the parameter the field is not read.
    assert_eq!(interpret_json_response(&j, "t".to_string(), &Json::Null), GuardResult::Text { text: "t".to_string(), passed: true, confidence: None });
}

#[test]
fn judge_competitors() {
    let params = obj(vec![("competitors", strs(&["acme"]))]);
    let j = obj(vec![("mentions_competitor", Json::Bool(true)), ("competitors_found", Json::Array(vec![Json::Str("acme".to_string()), Json::Bool(true), Json::Str("globex".to_string())]))]);
    assert_eq!(
        interpret_json_response(&j, "t".to_string(), &params),
        GuardResult::Text { text: "Found competitor mentions: acme, globex".to_string(), passed: false, confidence: Some(900000) }
    );
    let j = obj(vec![("mentions_competitor", Json::Bool(true))]);
    assert_eq!(interpret_json_response(&j, "t".to_string(), &params), GuardResult::Boolean { passed: false, confidence: Some(900000) });
    let j = obj(vec![("mentions_competitor", Json::Bool(false))]);
    assert_eq!(interpret_json_response(&j, "t".to_string(), &params), GuardResult::Boolean { passed: true, confidence: Some(100000) });
}

#[test]
fn judge_personal_data() {
    let params = obj(vec![("pii_types", strs(&["email"]))]);
    let j = obj(vec![("contains_pii", Json::Bool(true)), ("pii_types", strs(&["email", "phone"]))]);
    assert_eq!(
        interpret_json_response(&j, "t".to_string(), &params),
        GuardResult::Text { text: "Found PII: email, phone".to_string(), passed: false, confidence: Some(900000) }
    );
}

#[test]
fn judge_reply_that_is_not_json_passes_as_text() {
    assert_eq!(judge_result("plain words".to_string(), None, &Json::Null), GuardResult::Text { text: "plain words".to_string(), passed: true, confidence: None });
    let parsed = Some((obj(vec![("passed", Json::Bool(false))]), "{\"passed\":false}".to_string()));
    assert_eq!(judge_result("{ \"passed\": false }".to_string(), parsed, &Json::Null), GuardResult::Boolean { passed: false, confidence: None });
}

#[test]
fn judge_text_is_extracted() {
    let m = ChatCompletionMessage { role: "assistant".to_string(), content: Some(ChatCompletionContent::Text("yes".to_string())) };
    assert_eq!(extract_text_content(&m), Ok("yes".to_string()));
    let parts = vec![
        Content { content_type: ContentType::ImageUrl, text: Some("img".to_string()) },
        Content { content_type: ContentType::Text, text: None },
        Content { content_type: ContentType::Text, text: Some("second".to_string()) },
    ];
    let m = ChatCompletionMessage { role: "assistant".to_string(), content: Some(ChatCompletionContent::Content(parts)) };
    assert_eq!(extract_text_content(&m), Ok("second".to_string()));
    let m = ChatCompletionMessage { role: "assistant".to_string(), content: Some(ChatCompletionContent::Content(vec![])) };
    assert_eq!(extract_text_content(&m), Err("No text content found in response".to_string()));
    let m = ChatCompletionMessage { role: "assistant".to_string(), content: None };
    assert_eq!(extract_text_content(&m), Err("No content found in response".to_string()));
}

#[test]
fn judge_sees_its_template_and_the_last_message() {
    let msg = |role: &str, t: &str| ChatCompletionMessage { role: role.to_string(), content: Some(ChatCompletionContent::Text(t.to_string())) };
    let out = judge_messages(vec![msg("system", "judge this")], vec![msg("user", "first"), msg("user", "last")]);
    assert_eq!(out, vec![msg("system", "judge this"), msg("user", "last")]);
    assert_eq!(judge_messages(vec![msg("system", "s")], vec![]), vec![msg("system", "s")]);
}

#[test]
fn hosted_server_names() {
    assert_eq!(validate_server_name("websearch"), Ok(()));
    assert_eq!(validate_server_name("Web Search"), Ok(()));
    assert_eq!(validate_server_name("other"), Err(McpServerError::InvalidServerName("other".to_string())));
}

#[test]
fn judge_reply_reads_json_or_passes_text() {
    let reply = |t: &str| ChatCompletionMessage { role: "assistant".to_string(), content: Some(ChatCompletionContent::Text(t.to_string())) };
    let params = obj(vec![("threshold", Json::Number("0.5".to_string()))]);
    assert_eq!(
        judge_reply(&reply("{\"toxic\": true, \"confidence\": 0.25}"), &params),
        Ok(GuardResult::Boolean { passed: false, confidence: Some(250000) })
    );
    assert_eq!(
        judge_reply(&reply("{\"verdict\": 1}"), &params),
        Ok(GuardResult::Text { text: "{\"verdict\":1}".to_string(), passed: true, confidence: None })
    );
    assert_eq!(
        judge_reply(&reply("looks fine"), &params),
        Ok(GuardResult::Text { text: "looks fine".to_string(), passed: true, confidence: None })
    );
    let empty = ChatCompletionMessage { role: "assistant".to_string(), content: None };
    assert_eq!(judge_reply(&empty, &params), Err("No content found in response".to_string()));
}

#[test]
fn judge_template_comes_from_the_guard() {
    let g = GuardDefinition::LlmJudge {
        config: config(GuardStage::Input, GuardAction::Validate),
        model: "m".to_string(),
        system_prompt: Some("You judge toxicity.".to_string()),
        user_prompt_template: "Is this toxic?".to_string(),
        parameters: Json::Null,
    };
    let msgs = judge_template(&g).unwrap();
    assert_eq!(msgs.len(), 2);
    assert_eq!(msgs[0].role, "system");
    assert_eq!(msgs[0].content, Some(ChatCompletionContent::Text("You judge toxicity.".to_string())));
    assert_eq!(msgs[1].role, "user");
    assert_eq!(msgs[1].content, Some(ChatCompletionContent::Text("Is this toxic?".to_string())));
    assert_eq!(judge_template(&schema_guard(GuardStage::Input, GuardAction::Observe)), Err("Guard definition is not a LlmJudge".to_string()));
}
