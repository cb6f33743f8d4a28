//! The judge-model guard: its messages, and how its verdict is read.
use vstd::prelude::*;
use crate::guardrails::{GuardDefinition, GuardResult};
use crate::json::{decimal_micro, json_of, json_text, json_text_of, member, parse_json, parse_micro, Json, JsonV};

verus! {

/// The kind of one part of a message.
#[derive(Debug, Clone, Copy, PartialEq, Eq, Structural)]
pub enum ContentType {
    Text,
    ImageUrl,
    InputAudio,
}

/// One part of a message.
#[derive(Debug, Clone, PartialEq, Eq)]
pub struct Content {
    pub content_type: ContentType,
    pub text: Option<String>,
}

/// A message's content: plain text, or parts.
#[derive(Debug, Clone, PartialEq, Eq)]
pub enum ChatCompletionContent {
    Text(String),
    Content(Vec<Content>),
}

/// One message of a chat.
#[derive(Debug, Clone, PartialEq, Eq)]
pub struct ChatCompletionMessage {
    pub role: String,
    pub content: Option<ChatCompletionContent>,
}

/// The position of the first text part that has text.
pub open spec fn text_part(parts: Seq<Content>, i: int) -> bool {
    &&& 0 <= i < parts.len()
    &&& parts[i].content_type == ContentType::Text && parts[i].text is Some
    &&& forall|j: int| 0 <= j < i ==> !(parts[j].content_type == ContentType::Text && parts[j].text is Some)
}

/// The text of a judge's reply: its plain text, or the text of its first
/// text part.
pub fn extract_text_content(response: &ChatCompletionMessage) -> (r: Result<String, String>)
    ensures
        match response.content {
            Some(ChatCompletionContent::Text(t)) => r == Ok::<String, String>(t),
            Some(ChatCompletionContent::Content(parts)) => if exists|i: int| text_part(parts@, i) {
                r == Ok::<String, String>(parts@[choose|i: int| text_part(parts@, i)].text->Some_0)
            } else {
                r is Err && r->Err_0@ == "No text content found in response"@
            },
            None => r is Err && r->Err_0@ == "No content found in response"@,
        },
{
    match &response.content {
        Some(ChatCompletionContent::Text(text)) => Ok(text.clone()),
        Some(ChatCompletionContent::Content(parts)) => {
            let mut i: usize = 0;
            while i < parts.len()
                invariant
                    i <= parts.len(),
                    response.content == Some(ChatCompletionContent::Content(*parts)),
                    forall|j: int| 0 <= j < i ==> !(parts@[j].content_type == ContentType::Text && parts@[j].text is Some),
                decreases parts.len() - i,
            {
                if parts[i].content_type == ContentType::Text {
                    match &parts[i].text {
                        Some(t) => {
                            proof {
                                assert(text_part(parts@, i as int));
                                let c = choose|k: int| text_part(parts@, k);
                                assert(c == i as int) by {
                                    if c < i as int {
                                    } else if c > i as int {
                                    }
                                }
                            }
                            return Ok(t.clone());
                        },
                        None => {},
                    }
                }
                i += 1;
            }
            proof {
                assert forall|k: int| !text_part(parts@, k) by {
                    if text_part(parts@, k) {
                        assert(!(parts@[k].content_type == ContentType::Text && parts@[k].text is Some));
                    }
                }
            }
            Err(String::from_str("No text content found in response"))
        },
        None => Err(String::from_str("No content found in response")),
    }
}

/// The messages sent to the judge: the guard's own, then the request's last.
pub fn judge_messages(template: Vec<ChatCompletionMessage>, request_messages: Vec<ChatCompletionMessage>) -> (r: Vec<ChatCompletionMessage>)
    ensures
        r@ == if request_messages@.len() > 0 {
            template@.push(request_messages@.last())
        } else {
            template@
        },
{
    let mut messages = template;
    let mut rest = request_messages;
    match rest.pop() {
        Some(last) => messages.push(last),
        None => {},
    }
    messages
}

pub open spec fn bool_member(j: JsonV, k: Seq<char>) -> Option<bool> {
    match member(j, k) {
        Some(JsonV::Bool(b)) => Some(b),
        _ => None,
    }
}

pub open spec fn str_member(j: JsonV, k: Seq<char>) -> Option<Seq<char>> {
    match member(j, k) {
        Some(JsonV::Str(s)) => Some(s),
        _ => None,
    }
}

/// The member `confidence` as a number in millionths, where it is one.
pub open spec fn confidence_of(j: JsonV) -> Option<u64> {
    match member(j, "confidence"@) {
        Some(JsonV::Number(t)) => match decimal_micro(t) {
            Some(v) => if v <= u64::MAX { Some(v as u64) } else { None },
            None => None,
        },
        _ => None,
    }
}

/// The strings among `items`, in order.
pub open spec fn strings_of(items: Seq<JsonV>) -> Seq<Seq<char>>
    decreases items.len(),
{
    if items.len() == 0 {
        Seq::empty()
    } else {
        strings_of(items.drop_last()) + match items.last() {
            JsonV::Str(s) => seq![s],
            _ => Seq::empty(),
        }
    }
}

/// `parts` joined with `sep` between them.
pub open spec fn join(parts: Seq<Seq<char>>, sep: Seq<char>) -> Seq<char>
    decreases parts.len(),
{
    if parts.len() == 0 {
        Seq::empty()
    } else if parts.len() == 1 {
        parts[0]
    } else {
        join(parts.drop_last(), sep) + sep + parts.last()
    }
}

/// A judge's verdict, as a value.
pub enum Verdict {
    Boolean(bool, Option<u64>),
    Text(Seq<char>, bool, Option<u64>),
}

/// `r` is the guard result of the verdict `v`.
pub open spec fn gives(r: GuardResult, v: Verdict) -> bool {
    match (r, v) {
        (GuardResult::Boolean { passed, confidence }, Verdict::Boolean(p, c)) => passed == p && confidence == c,
        (GuardResult::Text { text, passed, confidence }, Verdict::Text(t, p, c)) => text@ == t && passed == p && confidence == c,
        _ => false,
    }
}

/// The confidence given to a flag the judge raised or not: nine tenths where
/// raised, one tenth otherwise, in millionths.
pub open spec fn flag_confidence(raised: bool) -> u64 {
    if raised { 900000 } else { 100000 }
}

/// A verdict of a flagging guard (competitors, personal data): the flag
/// fails the text; where it is raised and `list` names what was found, the
/// verdict reads `prefix` and the names joined by commas.
pub open spec fn flag_verdict(j: JsonV, raised: bool, list: Seq<char>, prefix: Seq<char>) -> Verdict {
    let c = Some(flag_confidence(raised));
    if raised {
        match member(j, list) {
            Some(JsonV::Array(items)) => Verdict::Text(prefix + join(strings_of(items), ", "@), false, c),
            _ => Verdict::Boolean(false, c),
        }
    } else {
        Verdict::Boolean(true, c)
    }
}

/// How a judge's JSON reply `j` (written `text`) is read, given the guard's
/// parameters: a `passed` member decides, with `details` as text where
/// present; else, for a toxicity guard (a `threshold` parameter), `toxic`
/// fails the text; for a competitor guard (`competitors`),
/// `mentions_competitor`; for a personal-data guard (`pii_types`),
/// `contains_pii`. A reply none of these reads passes, with its text.
pub open spec fn verdict(j: JsonV, text: Seq<char>, params: JsonV) -> Verdict {
    if let Some(p) = bool_member(j, "passed"@) {
        match str_member(j, "details"@) {
            Some(d) => Verdict::Text(d, p, confidence_of(j)),
            None => Verdict::Boolean(p, confidence_of(j)),
        }
    } else if member(params, "threshold"@) is Some && bool_member(j, "toxic"@) is Some {
        Verdict::Boolean(!bool_member(j, "toxic"@)->Some_0, confidence_of(j))
    } else if member(params, "competitors"@) is Some && bool_member(j, "mentions_competitor"@) is Some {
        flag_verdict(j, bool_member(j, "mentions_competitor"@)->Some_0, "competitors_found"@, "Found competitor mentions: "@)
    } else if member(params, "pii_types"@) is Some && bool_member(j, "contains_pii"@) is Some {
        flag_verdict(j, bool_member(j, "contains_pii"@)->Some_0, "pii_types"@, "Found PII: "@)
    } else {
        Verdict::Text(text, true, None)
    }
}

fn bool_member_exec(j: &Json, key: &str) -> (r: Option<bool>)
    ensures
        r == bool_member(j.model(), key@),
{
    match j.get(key) {
        Some(Json::Bool(b)) => Some(*b),
        _ => None,
    }
}

fn confidence_exec(j: &Json) -> (r: Option<u64>)
    ensures
        r == confidence_of(j.model()),
{
    match j.get("confidence") {
        Some(Json::Number(t)) => parse_micro(t),
        _ => None,
    }
}

/// The strings of `items` joined by `", "`.
fn join_strings(items: &Vec<Json>) -> (r: String)
    ensures
        r@ == join(strings_of(Seq::new(items@.len(), |i: int| items@[i].model())), ", "@),
{
    let ghost all = Seq::new(items@.len(), |i: int| items@[i].model());
    let mut out = String::new();
    let mut count: usize = 0;
    let mut i: usize = 0;
    while i < items.len()
        invariant
            i <= items.len(),
            all == Seq::new(items@.len(), |i: int| items@[i].model()),
            count == strings_of(all.take(i as int)).len(),
            count <= i,
            out@ == join(strings_of(all.take(i as int)), ", "@),
        decreases items.len() - i,
    {
        proof {
            assert(all.take(i as int + 1).drop_last() =~= all.take(i as int));
        }
        match &items[i] {
            Json::Str(s) => {
                let ghost before = strings_of(all.take(i as int));
                if count > 0 {
                    out.append(", ");
                }
                out.append(s.as_str());
                proof {
                    let after = strings_of(all.take(i as int + 1));
                    assert(after =~= before.push(s@));
                    assert(after.drop_last() =~= before);
                }
                assert(count < items.len());
                count = count + 1;
            },
            _ => {
                proof {
                    assert(strings_of(all.take(i as int + 1)) =~= strings_of(all.take(i as int)));
                }
            },
        }
        i += 1;
    }
    assert(all.take(items@.len() as int) =~= all);
    out
}

fn flag_result(j: &Json, raised: bool, list: &str, prefix: &str) -> (r: GuardResult)
    ensures
        gives(r, flag_verdict(j.model(), raised, list@, prefix@)),
{
    let confidence = if raised { Some(900000u64) } else { Some(100000u64) };
    if raised {
        match j.get(list) {
            Some(v) => match v {
                Json::Array(items) => {
                    let mut text = String::from_str(prefix);
                    let joined = join_strings(items);
                    text.append(joined.as_str());
                    assert(v.model()->Array_0 =~= Seq::new(items@.len(), |i: int| items@[i].model()));
                    GuardResult::Text { text, passed: false, confidence }
                },
                _ => GuardResult::Boolean { passed: false, confidence },
            },
            None => GuardResult::Boolean { passed: false, confidence },
        }
    } else {
        GuardResult::Boolean { passed: true, confidence }
    }
}

/// Reads a judge's JSON reply `json`, written `text`, as [`verdict`] says,
/// given the guard's parameters.
pub fn interpret_json_response(json: &Json, text: String, parameters: &Json) -> (r: GuardResult)
    ensures
        gives(r, verdict(json.model(), text@, parameters.model())),
{
    match bool_member_exec(json, "passed") {
        Some(passed) => {
            let confidence = confidence_exec(json);
            return match json.get("details") {
                Some(Json::Str(d)) => GuardResult::Text { text: d.clone(), passed, confidence },
                _ => GuardResult::Boolean { passed, confidence },
            };
        },
        None => {},
    }
    if parameters.get("threshold").is_some() {
        match bool_member_exec(json, "toxic") {
            Some(toxic) => {
                return GuardResult::Boolean { passed: !toxic, confidence: confidence_exec(json) };
            },
            None => {},
        }
    }
    if parameters.get("competitors").is_some() {
        match bool_member_exec(json, "mentions_competitor") {
            Some(mentions) => {
                return flag_result(json, mentions, "competitors_found", "Found competitor mentions: ");
            },
            None => {},
        }
    }
    if parameters.get("pii_types").is_some() {
        match bool_member_exec(json, "contains_pii") {
            Some(contains) => {
                return flag_result(json, contains, "pii_types", "Found PII: ");
            },
            None => {},
        }
    }
    GuardResult::Text { text, passed: true, confidence: None }
}

/// The guard result of a judge's reply `content`: where it parsed as JSON
/// (`parsed` holds the value and its compact text), the verdict read from
/// it; otherwise the reply itself as text that passes.
pub fn judge_result(content: String, parsed: Option<(Json, String)>, parameters: &Json) -> (r: GuardResult)
    ensures
        match parsed {
            Some((j, t)) => gives(r, verdict(j.model(), t@, parameters.model())),
            None => gives(r, Verdict::Text(content@, true, None)),
        },
{
    match parsed {
        Some((j, t)) => interpret_json_response(&j, t, parameters),
        None => GuardResult::Text { text: content, passed: true, confidence: None },
    }
}

/// The text of a judge's reply, or why it has none; see
/// [`extract_text_content`].
pub open spec fn reply_text(response: ChatCompletionMessage) -> Result<Seq<char>, Seq<char>> {
    match response.content {
        Some(ChatCompletionContent::Text(t)) => Ok(t@),
        Some(ChatCompletionContent::Content(parts)) => if exists|i: int| text_part(parts@, i) {
            Ok(parts@[choose|i: int| text_part(parts@, i)].text->Some_0@)
        } else {
            Err("No text content found in response"@)
        },
        None => Err("No content found in response"@),
    }
}

/// The text a parsed reply is reported with: serde_json's compact text of
/// it, or the reply itself where there is none.
pub open spec fn verdict_text(j: JsonV, reply: Seq<char>) -> Seq<char> {
    match json_text_of(j) {
        Some(t) => t,
        None => reply,
    }
}

/// The guard result of a judge's reply: its text, read as JSON where it is
/// JSON (see [`verdict`]), and otherwise passing with that text.
pub fn judge_reply(response: &ChatCompletionMessage, parameters: &Json) -> (r: Result<GuardResult, String>)
    ensures
        match reply_text(*response) {
            Err(m) => r is Err && r->Err_0@ == m,
            Ok(t) => r is Ok && match json_of(t) {
                Some(j) => gives(r->Ok_0, verdict(j, verdict_text(j, t), parameters.model())),
                None => gives(r->Ok_0, Verdict::Text(t, true, None)),
            },
        },
{
    let content = match extract_text_content(response) {
        Ok(c) => c,
        Err(m) => {
            return Err(m);
        },
    };
    let parsed = match parse_json(content.as_str()) {
        Some(j) => {
            let text = match json_text(&j) {
                Some(t) => t,
                None => content.clone(),
            };
            Some((j, text))
        },
        None => None,
    };
    Ok(judge_result(content, parsed, parameters))
}

/// `messages` are a judge guard's own: its system prompt as a `system`
/// message where it has one, then its user prompt template as a `user`
/// message.
pub open spec fn template_of(system_prompt: Option<String>, user_prompt: String, messages: Seq<ChatCompletionMessage>) -> bool {
    let user = messages.last();
    &&& messages.len() == if system_prompt is Some { 2int } else { 1int }
    &&& user.role@ == "user"@ && user.content == Some(ChatCompletionContent::Text(user_prompt))
    &&& system_prompt matches Some(p) ==> messages[0].role@ == "system"@ && messages[0].content == Some(ChatCompletionContent::Text(p))
}

/// The messages a judge guard starts from; any other guard is refused.
pub fn judge_template(guard: &GuardDefinition) -> (r: Result<Vec<ChatCompletionMessage>, String>)
    ensures
        match guard {
            GuardDefinition::LlmJudge { system_prompt, user_prompt_template, .. } => r is Ok && template_of(*system_prompt, *user_prompt_template, r->Ok_0@),
            _ => r is Err && r->Err_0@ == "Guard definition is not a LlmJudge"@,
        },
{
    match guard {
        GuardDefinition::LlmJudge { system_prompt, user_prompt_template, .. } => {
            let mut messages: Vec<ChatCompletionMessage> = Vec::new();
            match system_prompt {
                Some(p) => messages.push(ChatCompletionMessage {
                    role: String::from_str("system"),
                    content: Some(ChatCompletionContent::Text(p.clone())),
                }),
                None => {},
            }
            messages.push(ChatCompletionMessage {
                role: String::from_str("user"),
                content: Some(ChatCompletionContent::Text(user_prompt_template.clone())),
            });
            Ok(messages)
        },
        _ => Err(String::from_str("Guard definition is not a LlmJudge")),
    }
}

} // verus!
