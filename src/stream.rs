//! From a model's event stream to chat-completion deltas and server-sent
//! event frames.
use vstd::prelude::*;
use crate::json::{entries_model, json_text, json_text_of, Json, JsonV};

verus! {

/// A tool call that the model started.
#[derive(Debug, Clone, PartialEq, Eq)]
pub struct ToolCallEvent {
    pub tool_id: String,
    pub tool_name: String,
    pub input: String,
}

/// Why the model stopped.
#[derive(Debug, Clone, Copy, PartialEq, Eq, Structural)]
pub enum ModelFinishReason {
    Stop,
    Length,
    ToolCalls,
    ContentFilter,
}

/// Token counts of one completion.
#[derive(Debug, Clone, Copy, PartialEq, Eq, Structural)]
pub struct CompletionModelUsage {
    pub input_tokens: u32,
    pub output_tokens: u32,
    pub total_tokens: u32,
}

/// The model's final event.
#[derive(Debug, Clone, PartialEq, Eq)]
pub struct LlmFinishEvent {
    pub usage: Option<CompletionModelUsage>,
    pub finish_reason: ModelFinishReason,
    pub tool_calls: Vec<ToolCallEvent>,
}

/// An event of a model's stream.
#[derive(Debug, Clone, PartialEq, Eq)]
pub enum ModelEventType {
    LlmStart,
    LlmContent(String),
    ToolStart(ToolCallEvent),
    ToolResult(String),
    LlmStop(LlmFinishEvent),
}

#[derive(Debug, Clone, PartialEq, Eq)]
pub struct FunctionCall {
    pub name: String,
    pub arguments: String,
}

#[derive(Debug, Clone, PartialEq, Eq)]
pub struct ToolCall {
    pub id: String,
    pub call_type: String,
    pub function: FunctionCall,
}

/// One incremental fragment of a chat completion.
#[derive(Debug, Clone, PartialEq, Eq)]
pub struct ChatCompletionDelta {
    pub role: Option<String>,
    pub content: Option<String>,
    pub tool_calls: Option<Vec<ToolCall>>,
}

/// `c` is the chat form of the tool call `e`: same id, name and arguments,
/// of type `function`.
pub open spec fn tool_call_of(e: ToolCallEvent, c: ToolCall) -> bool {
    &&& c.id == e.tool_id
    &&& c.call_type@ == "function"@
    &&& c.function.name == e.tool_name
    &&& c.function.arguments == e.input
}

pub open spec fn assistant(d: ChatCompletionDelta) -> bool {
    d.role matches Some(r) && r@ == "assistant"@
}

/// `calls` holds the chat forms of `events`, in order.
pub open spec fn calls_match(calls: Option<Vec<ToolCall>>, events: Seq<ToolCallEvent>) -> bool {
    match calls {
        Some(c) => c@.len() == events.len() && forall|i: int| 0 <= i < c@.len() ==> tool_call_of(#[trigger] events[i], c@[i]),
        None => false,
    }
}

/// The delta of a final event: all its tool calls where the model stopped
/// for them, none otherwise.
pub open spec fn stop_delta(delta: Option<ChatCompletionDelta>, f: LlmFinishEvent) -> bool {
    if f.finish_reason == ModelFinishReason::ToolCalls {
        match delta {
            Some(d) => assistant(d) && d.content is None && calls_match(d.tool_calls, f.tool_calls@),
            None => false,
        }
    } else {
        delta is None
    }
}

/// `r` is what the model event `event` stands for; see [`map_model_event`].
pub open spec fn maps_to(event: ModelEventType, r: Option<(Option<ChatCompletionDelta>, Option<CompletionModelUsage>)>) -> bool {
    match event {
        ModelEventType::LlmContent(c) => r matches Some((Some(d), None)) && assistant(d) && d.content == Some(c) && d.tool_calls is None,
        ModelEventType::ToolStart(t) => r matches Some((Some(d), None)) && assistant(d) && d.content is None
            && calls_match(d.tool_calls, seq![t]),
        ModelEventType::LlmStop(f) => r matches Some((delta, usage)) && usage == f.usage && stop_delta(delta, f),
        _ => r is None,
    }
}

fn tool_call_from(e: ToolCallEvent) -> (r: ToolCall)
    ensures
        tool_call_of(e, r),
{
    ToolCall {
        id: e.tool_id,
        call_type: String::from_str("function"),
        function: FunctionCall { name: e.tool_name, arguments: e.input },
    }
}

/// The delta and usage that a model event stands for: content becomes an
/// assistant delta with that content; a started tool call an assistant delta
/// with that one call; the final event its usage, with a delta of all its
/// tool calls where the model stopped for them. Other events are dropped.
pub fn map_model_event(event: ModelEventType) -> (r: Option<(Option<ChatCompletionDelta>, Option<CompletionModelUsage>)>)
    ensures
        maps_to(event, r),
{
    match event {
        ModelEventType::LlmContent(content) => Some((
            Some(ChatCompletionDelta { role: Some(String::from_str("assistant")), content: Some(content), tool_calls: None }),
            None,
        )),
        ModelEventType::ToolStart(tool_call) => {
            let ghost t = tool_call;
            let call = tool_call_from(tool_call);
            let calls = vec![call];
            assert(calls_match(Some(calls), seq![t]));
            Some((
                Some(ChatCompletionDelta { role: Some(String::from_str("assistant")), content: None, tool_calls: Some(calls) }),
                None,
            ))
        },
        ModelEventType::LlmStop(finish) => {
            let ghost calls_in = finish.tool_calls@;
            let delta = match finish.finish_reason {
                ModelFinishReason::ToolCalls => {
                    let mut calls: Vec<ToolCall> = Vec::new();
                    let mut pending = finish.tool_calls;
                    let mut i: usize = 0;
                    while i < pending.len()
                        invariant
                            i <= pending.len(),
                            pending@ == calls_in,
                            calls@.len() == i,
                            forall|j: int| 0 <= j < i ==> tool_call_of(#[trigger] calls_in[j], calls@[j]),
                        decreases pending.len() - i,
                    {
                        let e = ToolCallEvent {
                            tool_id: pending[i].tool_id.clone(),
                            tool_name: pending[i].tool_name.clone(),
                            input: pending[i].input.clone(),
                        };
                        calls.push(tool_call_from(e));
                        i += 1;
                    }
                    Some(ChatCompletionDelta { role: Some(String::from_str("assistant")), content: None, tool_calls: Some(calls) })
                },
                _ => None,
            };
            Some((delta, finish.usage))
        },
        _ => None,
    }
}


/// Token counts as a chunk reports them.
#[derive(Debug, Clone, Copy, PartialEq, Eq, Structural)]
pub struct ChatCompletionUsage {
    pub prompt_tokens: i32,
    pub completion_tokens: i32,
    pub total_tokens: i32,
}

#[derive(Debug, Clone, PartialEq, Eq)]
pub struct ChatCompletionChunkChoice {
    pub index: u32,
    pub delta: ChatCompletionDelta,
}

/// One `chat.completion.chunk` of an event stream.
#[derive(Debug, Clone, PartialEq, Eq)]
pub struct ChatCompletionChunk {
    pub id: String,
    pub object: String,
    pub created: i64,
    pub model: String,
    pub choices: Vec<ChatCompletionChunkChoice>,
    pub usage: Option<ChatCompletionUsage>,
}

/// The chunk that carries `delta` and `usage`: one choice, at index 0, where
/// there is a delta; the usage where there is one, its counts read as `i32`.
pub open spec fn chunk_of(
    c: ChatCompletionChunk,
    delta: Option<ChatCompletionDelta>,
    usage: Option<CompletionModelUsage>,
    model: String,
    id: String,
    created: i64,
) -> bool {
    &&& c.id == id
    &&& c.object@ == "chat.completion.chunk"@
    &&& c.created == created
    &&& c.model == model
    &&& match delta {
        Some(d) => c.choices@.len() == 1 && c.choices@[0].index == 0 && c.choices@[0].delta == d,
        None => c.choices@.len() == 0,
    }
    &&& match usage {
        Some(u) => c.usage == Some(
            ChatCompletionUsage {
                prompt_tokens: u.input_tokens as i32,
                completion_tokens: u.output_tokens as i32,
                total_tokens: u.total_tokens as i32,
            },
        ),
        None => c.usage is None,
    }
}

/// The chunk that carries a delta and usage; see [`chunk_of`].
pub fn chunk_for(
    delta: Option<ChatCompletionDelta>,
    usage: Option<CompletionModelUsage>,
    model: String,
    id: String,
    created: i64,
) -> (r: ChatCompletionChunk)
    ensures
        chunk_of(r, delta, usage, model, id, created),
{
    let ghost d0 = delta;
    let choices = match delta {
        Some(d) => vec![ChatCompletionChunkChoice { index: 0, delta: d }],
        None => Vec::new(),
    };
    let usage = match usage {
        Some(u) => Some(
            ChatCompletionUsage {
                prompt_tokens: u.input_tokens as i32,
                completion_tokens: u.output_tokens as i32,
                total_tokens: u.total_tokens as i32,
            },
        ),
        None => None,
    };
    ChatCompletionChunk { id, object: String::from_str("chat.completion.chunk"), created, model, choices, usage }
}

pub open spec fn digit_char(d: nat) -> char {
    if d == 0 { '0' } else if d == 1 { '1' } else if d == 2 { '2' } else if d == 3 { '3' } else if d == 4 { '4' }
    else if d == 5 { '5' } else if d == 6 { '6' } else if d == 7 { '7' } else if d == 8 { '8' } else { '9' }
}

/// The decimal digits of `n`.
pub open spec fn nat_text(n: nat) -> Seq<char>
    decreases n,
{
    if n < 10 {
        seq![digit_char(n)]
    } else {
        nat_text(n / 10) + seq![digit_char(n % 10)]
    }
}

/// `n` in decimal, with a minus sign where negative.
pub open spec fn int_text(n: int) -> Seq<char> {
    if n < 0 {
        seq!['-'] + nat_text((-n) as nat)
    } else {
        nat_text(n as nat)
    }
}

fn digit_str(d: u64) -> (r: &'static str)
    requires
        d < 10,
    ensures
        r@ == seq![digit_char(d as nat)],
{
    proof {
        reveal_strlit("0");
        reveal_strlit("1");
        reveal_strlit("2");
        reveal_strlit("3");
        reveal_strlit("4");
        reveal_strlit("5");
        reveal_strlit("6");
        reveal_strlit("7");
        reveal_strlit("8");
        reveal_strlit("9");
    }
    if d == 0 { "0" } else if d == 1 { "1" } else if d == 2 { "2" } else if d == 3 { "3" } else if d == 4 { "4" }
    else if d == 5 { "5" } else if d == 6 { "6" } else if d == 7 { "7" } else if d == 8 { "8" } else { "9" }
}

fn nat_text_exec(n: u64) -> (r: String)
    ensures
        r@ == nat_text(n as nat),
    decreases n,
{
    if n < 10 {
        String::from_str(digit_str(n))
    } else {
        let mut s = nat_text_exec(n / 10);
        s.append(digit_str(n % 10));
        s
    }
}

/// `n` in decimal.
pub fn int_text_exec(n: i64) -> (r: String)
    ensures
        r@ == int_text(n as int),
{
    if n < 0 {
        let m: u64 = (-(n as i128)) as u64;
        let mut s = String::from_str("-");
        proof {
            reveal_strlit("-");
        }
        s.append(nat_text_exec(m).as_str());
        s
    } else {
        nat_text_exec(n as u64)
    }
}

/// A JSON object of the given entries.
pub fn object(entries: Vec<(String, Json)>) -> (r: Json)
    ensures
        r.model() == JsonV::Object(entries_model(entries@)),
{
    let r = Json::Object(entries);
    assert(r.model()->Object_0 =~= entries_model(entries@));
    r
}

/// A JSON array of the given items.
pub fn array(items: Vec<Json>) -> (r: Json)
    ensures
        r.model() == JsonV::Array(Seq::new(items@.len(), |i: int| items@[i].model())),
{
    let r = Json::Array(items);
    assert(r.model()->Array_0 =~= Seq::new(items@.len(), |i: int| items@[i].model()));
    r
}

/// `{key: s}` as an entry, where `s` is present.
pub open spec fn opt_entry(key: Seq<char>, v: Option<String>) -> Seq<(Seq<char>, JsonV)> {
    match v {
        Some(s) => seq![(key, JsonV::Str(s@))],
        None => Seq::empty(),
    }
}

/// `{"id", "type", "function": {"name", "arguments"}}`.
pub open spec fn tool_call_json(c: ToolCall) -> JsonV {
    JsonV::Object(
        seq![
            ("id"@, JsonV::Str(c.id@)),
            ("type"@, JsonV::Str(c.call_type@)),
            (
                "function"@,
                JsonV::Object(seq![("name"@, JsonV::Str(c.function.name@)), ("arguments"@, JsonV::Str(c.function.arguments@))]),
            ),
        ],
    )
}

/// `{"role", "content", "tool_calls"}`, without the absent ones.
pub open spec fn delta_json(d: ChatCompletionDelta) -> JsonV {
    JsonV::Object(
        opt_entry("role"@, d.role) + opt_entry("content"@, d.content) + match d.tool_calls {
            Some(cs) => seq![("tool_calls"@, JsonV::Array(cs@.map_values(|c: ToolCall| tool_call_json(c))))],
            None => Seq::empty(),
        },
    )
}

/// The token counts, with a `cost` of zero.
pub open spec fn usage_json(u: ChatCompletionUsage) -> JsonV {
    JsonV::Object(
        seq![
            ("prompt_tokens"@, JsonV::Number(int_text(u.prompt_tokens as int))),
            ("completion_tokens"@, JsonV::Number(int_text(u.completion_tokens as int))),
            ("total_tokens"@, JsonV::Number(int_text(u.total_tokens as int))),
            ("cost"@, JsonV::Number("0.0"@)),
        ],
    )
}

pub open spec fn choice_json(c: ChatCompletionChunkChoice) -> JsonV {
    JsonV::Object(seq![("index"@, JsonV::Number(int_text(c.index as int))), ("delta"@, delta_json(c.delta))])
}

/// `{"id", "object", "created", "model", "choices", "usage"}`, without the
/// usage where there is none.
pub open spec fn chunk_json(c: ChatCompletionChunk) -> JsonV {
    JsonV::Object(
        seq![
            ("id"@, JsonV::Str(c.id@)),
            ("object"@, JsonV::Str(c.object@)),
            ("created"@, JsonV::Number(int_text(c.created as int))),
            ("model"@, JsonV::Str(c.model@)),
            ("choices"@, JsonV::Array(c.choices@.map_values(|ch: ChatCompletionChunkChoice| choice_json(ch)))),
        ] + match c.usage {
            Some(u) => seq![("usage"@, usage_json(u))],
            None => Seq::empty(),
        },
    )
}

fn tool_call_to_json(call: &ToolCall) -> (r: Json)
    ensures
        r.model() == tool_call_json(*call),
{
    let fe = vec![
        (String::from_str("name"), Json::Str(call.function.name.clone())),
        (String::from_str("arguments"), Json::Str(call.function.arguments.clone())),
    ];
    assert(entries_model(fe@) =~= seq![("name"@, JsonV::Str(call.function.name@)), ("arguments"@, JsonV::Str(call.function.arguments@))]);
    let function = object(fe);
    let ghost fm = function.model();
    let e = vec![
        (String::from_str("id"), Json::Str(call.id.clone())),
        (String::from_str("type"), Json::Str(call.call_type.clone())),
        (String::from_str("function"), function),
    ];
    assert(entries_model(e@) =~= seq![("id"@, JsonV::Str(call.id@)), ("type"@, JsonV::Str(call.call_type@)), ("function"@, fm)]);
    object(e)
}

impl ChatCompletionDelta {
    /// The delta as JSON; see [`delta_json`].
    pub fn to_json(&self) -> (r: Json)
        ensures
            r.model() == delta_json(*self),
    {
        let mut entries: Vec<(String, Json)> = Vec::new();
        match &self.role {
            Some(role) => entries.push((String::from_str("role"), Json::Str(role.clone()))),
            None => {},
        }
        assert(entries_model(entries@) =~= opt_entry("role"@, self.role));
        let ghost e1 = entries_model(entries@);
        match &self.content {
            Some(content) => entries.push((String::from_str("content"), Json::Str(content.clone()))),
            None => {},
        }
        assert(entries_model(entries@) =~= e1 + opt_entry("content"@, self.content));
        let ghost e2 = entries_model(entries@);
        match &self.tool_calls {
            Some(calls) => {
                let mut items: Vec<Json> = Vec::new();
                let mut i: usize = 0;
                while i < calls.len()
                    invariant
                        i <= calls.len(),
                        items@.len() == i,
                        forall|j: int| 0 <= j < i ==> (#[trigger] items@[j]).model() == tool_call_json(calls@[j]),
                    decreases calls.len() - i,
                {
                    items.push(tool_call_to_json(&calls[i]));
                    i += 1;
                }
                let a = array(items);
                assert(a.model()->Array_0 =~= calls@.map_values(|c: ToolCall| tool_call_json(c)));
                entries.push((String::from_str("tool_calls"), a));
                assert(entries_model(entries@) =~= e2 + seq![("tool_calls"@, JsonV::Array(calls@.map_values(|c: ToolCall| tool_call_json(c))))]);
            },
            None => {
                assert(entries_model(entries@) =~= e2 + Seq::<(Seq<char>, JsonV)>::empty());
            },
        }
        object(entries)
    }
}

impl ChatCompletionChunk {
    /// The chunk as JSON; see [`chunk_json`].
    pub fn to_json(&self) -> (r: Json)
        ensures
            r.model() == chunk_json(*self),
    {
        let mut choices: Vec<Json> = Vec::new();
        let mut i: usize = 0;
        while i < self.choices.len()
            invariant
                i <= self.choices.len(),
                choices@.len() == i,
                forall|j: int| 0 <= j < i ==> (#[trigger] choices@[j]).model() == choice_json(self.choices@[j]),
            decreases self.choices.len() - i,
        {
            let c = &self.choices[i];
            let e = vec![
                (String::from_str("index"), Json::Number(int_text_exec(c.index as i64))),
                (String::from_str("delta"), c.delta.to_json()),
            ];
            assert(entries_model(e@) =~= seq![("index"@, JsonV::Number(int_text(c.index as int))), ("delta"@, delta_json(c.delta))]);
            choices.push(object(e));
            i += 1;
        }
        let a = array(choices);
        assert(a.model()->Array_0 =~= self.choices@.map_values(|ch: ChatCompletionChunkChoice| choice_json(ch)));
        let ghost am = a.model();
        let mut entries: Vec<(String, Json)> = vec![
            (String::from_str("id"), Json::Str(self.id.clone())),
            (String::from_str("object"), Json::Str(self.object.clone())),
            (String::from_str("created"), Json::Number(int_text_exec(self.created))),
            (String::from_str("model"), Json::Str(self.model.clone())),
            (String::from_str("choices"), a),
        ];
        let ghost head = seq![
            ("id"@, JsonV::Str(self.id@)),
            ("object"@, JsonV::Str(self.object@)),
            ("created"@, JsonV::Number(int_text(self.created as int))),
            ("model"@, JsonV::Str(self.model@)),
            ("choices"@, am),
        ];
        assert(entries_model(entries@) =~= head);
        match &self.usage {
            Some(u) => {
                let ue = vec![
                    (String::from_str("prompt_tokens"), Json::Number(int_text_exec(u.prompt_tokens as i64))),
                    (String::from_str("completion_tokens"), Json::Number(int_text_exec(u.completion_tokens as i64))),
                    (String::from_str("total_tokens"), Json::Number(int_text_exec(u.total_tokens as i64))),
                    (String::from_str("cost"), Json::Number(String::from_str("0.0"))),
                ];
                assert(entries_model(ue@) =~= usage_json(*u)->Object_0);
                let usage = object(ue);
                entries.push((String::from_str("usage"), usage));
                assert(entries_model(entries@) =~= head + seq![("usage"@, usage_json(*u))]);
            },
            None => {
                assert(entries_model(entries@) =~= head + Seq::<(Seq<char>, JsonV)>::empty());
            },
        }
        object(entries)
    }
}

/// `{"error": message}`.
pub fn error_json(message: String) -> (r: Json)
    ensures
        r.model() == JsonV::Object(seq![("error"@, JsonV::Str(message@))]),
{
    let entries = vec![(String::from_str("error"), Json::Str(message))];
    let r = object(entries);
    assert(entries_model(entries@) =~= seq![("error"@, JsonV::Str(message@))]);
    r
}

/// A hexadecimal digit as `Uuid`'s `Display` writes it, in lower case.
pub open spec fn is_lower_hex(c: char) -> bool {
    ('0' <= c && c <= '9') || ('a' <= c && c <= 'f')
}

/// Relies on uuid::Uuid::new_v4 and its `Display`: a random identifier,
/// written as 36 characters in the hyphenated form, with hyphens at 8, 13,
/// 18 and 23 and lower-case hexadecimal digits elsewhere.
#[verifier::external_body]
fn new_chunk_id() -> (r: String)
    ensures
        r@.len() == 36,
        forall|i: int| 0 <= i < 36 ==> if i == 8 || i == 13 || i == 18 || i == 23 {
            r@[i] == '-'
        } else {
            is_lower_hex(#[trigger] r@[i])
        },
{
    uuid::Uuid::new_v4().to_string()
}

/// Relies on chrono::Utc::now and `DateTime::timestamp`: the seconds since
/// the Unix epoch, read from the clock; `Utc::now` panics on a clock set
/// before the epoch, so what it returns is not negative.
#[verifier::external_body]
fn now_timestamp() -> (r: i64)
    ensures
        r >= 0,
{
    chrono::Utc::now().timestamp()
}

/// The payload of the frame for one delta result: nothing where both delta
/// and usage are absent, the chunk with a fresh id and the time now where
/// either is present, and `{"error": message}` for an error.
pub fn map_sso_event(delta: Result<(Option<ChatCompletionDelta>, Option<CompletionModelUsage>), String>, model_name: String) -> (r: Option<Json>)
    ensures
        match delta {
            Ok((None, None)) => r is None,
            Ok((d, u)) => r matches Some(j) && exists|c: ChatCompletionChunk| #[trigger] chunk_of(c, d, u, model_name, c.id, c.created) && c.id@.len() == 36 && j.model() == chunk_json(c),
            Err(message) => r matches Some(j) && j.model() == JsonV::Object(seq![("error"@, JsonV::Str(message@))]),
        },
{
    match delta {
        Ok((None, None)) => None,
        Ok((d, u)) => {
            let id = new_chunk_id();
            let created = now_timestamp();
            let chunk = chunk_for(d, u, model_name, id, created);
            let j = chunk.to_json();
            assert(chunk_of(chunk, d, u, model_name, chunk.id, chunk.created));
            Some(j)
        },
        Err(message) => Some(error_json(message)),
    }
}

/// The frame that carries `payload`: `data: <payload>` and a blank line.
pub open spec fn frame_of(payload: Seq<char>) -> Seq<char> {
    "data: "@ + payload + "\n\n"@
}

/// The frame that ends every stream.
pub open spec fn done_frame_text() -> Seq<char> {
    "data: [DONE]\n\n"@
}

/// The server-sent event frame that carries `payload`.
pub fn sse_frame(payload: &str) -> (r: String)
    ensures
        r@ == frame_of(payload@),
{
    let mut s = String::from_str("data: ");
    s.append(payload);
    s.append("\n\n");
    s
}

/// `data: [DONE]` and a blank line.
pub fn done_frame() -> (r: String)
    ensures
        r@ == done_frame_text(),
{
    String::from_str("data: [DONE]\n\n")
}

/// Only the payload `[DONE]` makes the closing frame.
pub proof fn lemma_only_done_closes(p: Seq<char>)
    ensures
        frame_of(p) == done_frame_text() ==> p == "[DONE]"@,
{
    reveal_strlit("data: ");
    reveal_strlit("\n\n");
    reveal_strlit("data: [DONE]\n\n");
    reveal_strlit("[DONE]");
    let f = frame_of(p);
    if f == done_frame_text() {
        assert(p =~= f.subrange(6, f.len() - 2));
        assert("[DONE]"@ =~= done_frame_text().subrange(6, 12));
    }
}

/// The frames of a whole stream: one for each payload, in order, and then
/// one `data: [DONE]` frame, the only one where no payload reads `[DONE]`.
pub fn sse_stream(payloads: &Vec<String>) -> (r: Vec<String>)
    ensures
        r@.len() == payloads@.len() + 1,
        forall|i: int| 0 <= i < payloads@.len() ==> (#[trigger] r@[i])@ == frame_of(payloads@[i]@),
        r@[payloads@.len() as int]@ == done_frame_text(),
        forall|i: int| 0 <= i < payloads@.len() && payloads@[i]@ != "[DONE]"@ ==> (#[trigger] r@[i])@ != done_frame_text(),
{
    let mut frames: Vec<String> = Vec::new();
    let mut i: usize = 0;
    while i < payloads.len()
        invariant
            i <= payloads.len(),
            frames@.len() == i,
            forall|j: int| 0 <= j < i ==> (#[trigger] frames@[j])@ == frame_of(payloads@[j]@),
        decreases payloads.len() - i,
    {
        frames.push(sse_frame(payloads[i].as_str()));
        i += 1;
    }
    frames.push(done_frame());
    proof {
        assert forall|i: int| 0 <= i < payloads@.len() && payloads@[i]@ != "[DONE]"@ implies (#[trigger] frames@[i])@ != done_frame_text() by {
            lemma_only_done_closes(payloads@[i]@);
        }
    }
    frames
}

/// The error text of a stream that ends before its first event.
pub open spec fn empty_stream_text() -> Seq<char> {
    "Empty response from model"@
}

/// The first event of a stream, looked at before the response is committed:
/// an event is handed back, an error is the response's error, and a stream
/// without events fails with `Empty response from model`.
pub fn peel_first<T>(first: Option<Result<T, String>>) -> (r: Result<T, String>)
    ensures
        match first {
            Some(Ok(e)) => r == Ok::<T, String>(e),
            Some(Err(m)) => r == Err::<T, String>(m),
            None => r is Err && r->Err_0@ == empty_stream_text(),
        },
{
    match first {
        Some(Ok(e)) => Ok(e),
        Some(Err(m)) => Err(m),
        None => Err(String::from_str("Empty response from model")),
    }
}

/// An item of a model's stream that the response carries: an error, or an
/// event that stands for a delta or usage.
pub open spec fn relevant(e: Result<ModelEventType, String>) -> bool {
    match e {
        Err(_) => true,
        Ok(ModelEventType::LlmContent(_)) | Ok(ModelEventType::ToolStart(_)) | Ok(ModelEventType::LlmStop(_)) => true,
        _ => false,
    }
}

/// An item that makes a frame: a relevant one, but for a final event with
/// neither usage nor tool calls.
pub open spec fn emits(e: Result<ModelEventType, String>) -> bool {
    relevant(e) && match e {
        Ok(ModelEventType::LlmStop(f)) => f.usage is Some || f.finish_reason == ModelFinishReason::ToolCalls,
        _ => true,
    }
}

/// The items of `es` that make frames, in order.
pub open spec fn emitting(es: Seq<Result<ModelEventType, String>>) -> Seq<Result<ModelEventType, String>>
    decreases es.len(),
{
    if es.len() == 0 {
        Seq::empty()
    } else {
        emitting(es.drop_last()) + if emits(es.last()) {
            seq![es.last()]
        } else {
            Seq::empty()
        }
    }
}

/// `i` is the position of the first relevant item of `es`.
pub open spec fn first_relevant(es: Seq<Result<ModelEventType, String>>, i: int) -> bool {
    &&& 0 <= i < es.len()
    &&& relevant(es[i])
    &&& forall|j: int| 0 <= j < i ==> !relevant(es[j])
}

/// The text written for a payload where serde_json writes none.
pub open spec fn unwritable_text() -> Seq<char> {
    "{\"error\": \"Failed to serialize chunk\"}"@
}

/// The text of a payload.
pub open spec fn payload_text(p: JsonV) -> Seq<char> {
    match json_text_of(p) {
        Some(t) => t,
        None => unwritable_text(),
    }
}

/// `t` is the payload text of item `e`: for an error `{"error": message}`;
/// for an event, the chunk of its delta and usage, with a 36-character id.
pub open spec fn event_payload(e: Result<ModelEventType, String>, model: String, t: Seq<char>) -> bool {
    match e {
        Err(m) => t == payload_text(JsonV::Object(seq![("error"@, JsonV::Str(m@))])),
        Ok(ev) => exists|d: Option<ChatCompletionDelta>, u: Option<CompletionModelUsage>, c: ChatCompletionChunk|
            maps_to(ev, Some((d, u))) && #[trigger] chunk_of(c, d, u, model, c.id, c.created) && c.id@.len() == 36
                && t == payload_text(chunk_json(c)),
    }
}

/// `f` is the frame of item `e`: the frame of its payload text.
pub open spec fn frame_for(e: Result<ModelEventType, String>, model: String, f: Seq<char>) -> bool {
    exists|t: Seq<char>| event_payload(e, model, t) && f == #[trigger] frame_of(t)
}

/// `frames` is the body for the items `es`: one frame for each item that
/// makes one, in order, then one `data: [DONE]` frame.
pub open spec fn body_frames(frames: Seq<String>, es: Seq<Result<ModelEventType, String>>, model: String) -> bool {
    let items = emitting(es);
    &&& frames.len() == items.len() + 1
    &&& forall|k: int| 0 <= k < items.len() ==> frame_for(items[k], model, #[trigger] frames[k]@)
    &&& frames[items.len() as int]@ == done_frame_text()
}

fn is_relevant(e: &Result<ModelEventType, String>) -> (r: bool)
    ensures
        r == relevant(*e),
{
    match e {
        Err(_) => true,
        Ok(ModelEventType::LlmContent(_)) | Ok(ModelEventType::ToolStart(_)) | Ok(ModelEventType::LlmStop(_)) => true,
        _ => false,
    }
}

fn payload_string(p: &Json) -> (r: String)
    ensures
        r@ == payload_text(p.model()),
{
    match json_text(p) {
        Some(t) => t,
        None => String::from_str("{\"error\": \"Failed to serialize chunk\"}"),
    }
}

/// The server-sent event body of a model's stream, after its first relevant
/// item has been looked at: no such item fails with `Empty response from
/// model`, and an error there is the response's error, with no frame at all.
/// Otherwise one frame for each item that makes one, in order, and then one
/// `data: [DONE]` frame.
pub fn sse_body(events: Vec<Result<ModelEventType, String>>, model_name: String) -> (r: Result<Vec<String>, String>)
    ensures
        !(exists|i: int| first_relevant(events@, i)) ==> r is Err && r->Err_0@ == empty_stream_text(),
        forall|i: int| #[trigger] first_relevant(events@, i) ==> match events@[i] {
            Err(m) => r == Err::<Vec<String>, String>(m),
            Ok(_) => r is Ok,
        },
        r is Ok ==> body_frames(r->Ok_0@, events@, model_name),
{
    let ghost es = events@;
    let mut i: usize = 0;
    while i < events.len() && !is_relevant(&events[i])
        invariant
            i <= events.len(),
            es == events@,
            forall|j: int| 0 <= j < i ==> !relevant(es[j]),
        decreases events.len() - i,
    {
        i += 1;
    }
    if i == events.len() {
        proof {
            assert forall|k: int| !first_relevant(es, k) by {
                if first_relevant(es, k) {
                    assert(!relevant(es[k]));
                }
            }
        }
        return Err(String::from_str("Empty response from model"));
    }
    proof {
        assert(first_relevant(es, i as int));
        assert forall|k: int| first_relevant(es, k) implies k == i as int by {
            if k < i as int {
            } else if k > i as int {
                assert(!relevant(es[i as int]));
            }
        }
    }
    match &events[i] {
        Err(m) => {
            return Err(m.clone());
        },
        Ok(_) => {},
    }
    let mut rest = events;
    let mut payloads: Vec<String> = Vec::new();
    let mut j: usize = 0;
    let n = rest.len();
    while rest.len() > 0
        invariant
            j + rest.len() == n,
            n == es.len(),
            rest@ == es.skip(j as int),
            payloads@.len() == emitting(es.take(j as int)).len(),
            forall|k: int| 0 <= k < payloads@.len() ==> event_payload(emitting(es.take(j as int))[k], model_name, #[trigger] payloads@[k]@),
        decreases rest.len(),
    {
        let e = rest.remove(0);
        let ghost eg = e;
        let ghost before = emitting(es.take(j as int));
        proof {
            assert(eg == es[j as int]);
            assert(es.take(j as int + 1).drop_last() =~= es.take(j as int));
            assert(es.take(j as int + 1).last() == eg);
        }
        match e {
            Ok(ev) => {
                let ghost evg = ev;
                match map_model_event(ev) {
                    Some(d) => {
                        let ghost dg = d;
                        match map_sso_event(Ok(d), model_name.clone()) {
                            Some(p) => {
                                let t = payload_string(&p);
                                payloads.push(t);
                                proof {
                                    assert(emits(eg));
                                    assert(emitting(es.take(j as int + 1)) =~= before.push(eg));
                                    let c = choose|c: ChatCompletionChunk| #[trigger] chunk_of(c, dg.0, dg.1, model_name, c.id, c.created) && c.id@.len() == 36 && p.model() == chunk_json(c);
                                    assert(chunk_of(c, dg.0, dg.1, model_name, c.id, c.created));
                                    assert(event_payload(eg, model_name, t@));
                                    assert forall|k: int| 0 <= k < payloads@.len() implies event_payload(emitting(es.take(j as int + 1))[k], model_name, #[trigger] payloads@[k]@) by {
                                        if k < before.len() {
                                            assert(emitting(es.take(j as int + 1))[k] == before[k]);
                                        }
                                    }
                                }
                            },
                            None => {
                                proof {
                                    assert(!emits(eg));
                                    assert(emitting(es.take(j as int + 1)) =~= before);
                                }
                            },
                        }
                    },
                    None => {
                        proof {
                            assert(!emits(eg));
                            assert(emitting(es.take(j as int + 1)) =~= before);
                        }
                    },
                }
            },
            Err(m) => {
                let ghost mg = m;
                let p = error_json(m);
                let t = payload_string(&p);
                payloads.push(t);
                proof {
                    assert(emits(eg));
                    assert(emitting(es.take(j as int + 1)) =~= before.push(eg));
                    assert forall|k: int| 0 <= k < payloads@.len() implies event_payload(emitting(es.take(j as int + 1))[k], model_name, #[trigger] payloads@[k]@) by {
                        if k < before.len() {
                            assert(emitting(es.take(j as int + 1))[k] == before[k]);
                        }
                    }
                }
            },
        }
        proof {
            assert(rest@ =~= es.skip(j as int + 1));
        }
        j += 1;
    }
    assert(es.take(n as int) =~= es);
    let frames = sse_stream(&payloads);
    proof {
        let items = emitting(es);
        assert(emitting(es.take(n as int)) == items);
        assert(payloads@.len() == items.len());
        assert(frames@.len() == items.len() + 1);
        assert(frames@[items.len() as int]@ == done_frame_text());
        assert forall|k: int| 0 <= k < items.len() implies frame_for(items[k], model_name, #[trigger] frames@[k]@) by {
            assert(event_payload(items[k], model_name, payloads@[k]@));
            assert(frames@[k]@ == frame_of(payloads@[k]@));
        }
        assert(body_frames(frames@, es, model_name));
    }
    Ok(frames)
}

} // verus!
