//! Guards: stage-bound evaluators with an observe or validate policy.
use vstd::prelude::*;
use crate::json::Json;

verus! {

/// Why a guarded request was stopped or a guard could not run.
#[derive(Debug, Clone, PartialEq, Eq)]
pub enum GuardError {
    GuardNotFound(String),
    GuardEvaluationError(String),
    OutputGuardrailsNotSupportedInStreaming,
    RequestStoppedAfterGuardEvaluation(String),
}

/// When a guard runs.
#[derive(Debug, Clone, Copy, PartialEq, Eq, Structural)]
pub enum GuardStage {
    /// On the user's messages, before the model is called.
    Input,
    /// On the model's response, before it is returned.
    Output,
}

/// What a guard does with its result.
#[derive(Debug, Clone, Copy, PartialEq, Eq, Structural)]
pub enum GuardAction {
    /// Records the result and lets the request go on.
    Observe,
    /// Stops the request where the result did not pass.
    Validate,
}

/// The result of one guard evaluation. Confidences are in millionths.
#[derive(Debug, PartialEq)]
pub enum GuardResult {
    Boolean { passed: bool, confidence: Option<u64> },
    Text { text: String, passed: bool, confidence: Option<u64> },
    Json { schema: Json, passed: bool },
}

impl GuardResult {
    pub open spec fn spec_passed(&self) -> bool {
        match self {
            GuardResult::Boolean { passed, .. } => *passed,
            GuardResult::Text { passed, .. } => *passed,
            GuardResult::Json { passed, .. } => *passed,
        }
    }

    /// Whether the evaluated text passed the guard.
    pub fn passed(&self) -> (r: bool)
        ensures
            r == self.spec_passed(),
    {
        match self {
            GuardResult::Boolean { passed, .. } => *passed,
            GuardResult::Text { passed, .. } => *passed,
            GuardResult::Json { passed, .. } => *passed,
        }
    }
}

/// What every guard carries.
#[derive(Debug, Clone, PartialEq, Eq)]
pub struct GuardConfig {
    pub definition_id: String,
    pub definition_name: String,
    pub description: Option<String>,
    pub stage: GuardStage,
    pub action: GuardAction,
}

/// An example of a dataset guard: a text with its label and, once computed,
/// its embedding in millionths.
#[derive(Debug, Clone, PartialEq, Eq)]
pub struct GuardExample {
    pub text: String,
    pub label: bool,
    pub embedding: Option<Vec<i64>>,
}

/// The examples of a dataset guard, or the name of a dataset to load.
#[derive(Debug, Clone, PartialEq, Eq)]
pub enum DatasetSource {
    Examples(Vec<GuardExample>),
    Source(String),
}

/// The kinds of guard.
#[derive(Debug, PartialEq)]
pub enum GuardDefinition {
    /// Validates against a JSON schema.
    Schema { config: GuardConfig, schema: Json },
    /// Asks a judge model.
    LlmJudge {
        config: GuardConfig,
        model: String,
        system_prompt: Option<String>,
        user_prompt_template: String,
        parameters: Json,
    },
    /// Compares embeddings with those of labelled examples; the threshold is
    /// in millionths.
    Dataset { config: GuardConfig, embedding_model: String, threshold: u64, dataset: DatasetSource, schema: Json },
}

/// A guard with the definition it evaluates.
#[derive(Debug, PartialEq)]
pub struct Guard {
    pub id: String,
    pub name: String,
    pub definition: GuardDefinition,
    pub user_input: Option<Json>,
}

impl GuardDefinition {
    pub open spec fn config(&self) -> GuardConfig {
        match self {
            GuardDefinition::Schema { config, .. } => *config,
            GuardDefinition::LlmJudge { config, .. } => *config,
            GuardDefinition::Dataset { config, .. } => *config,
        }
    }

    /// The stage at which this guard runs.
    pub fn stage(&self) -> (r: &GuardStage)
        ensures
            *r == self.config().stage,
    {
        match self {
            GuardDefinition::Schema { config, .. } => &config.stage,
            GuardDefinition::LlmJudge { config, .. } => &config.stage,
            GuardDefinition::Dataset { config, .. } => &config.stage,
        }
    }

    /// The action this guard takes.
    pub fn action(&self) -> (r: &GuardAction)
        ensures
            *r == self.config().action,
    {
        match self {
            GuardDefinition::Schema { config, .. } => &config.action,
            GuardDefinition::LlmJudge { config, .. } => &config.action,
            GuardDefinition::Dataset { config, .. } => &config.action,
        }
    }

    /// The identifier of this guard.
    pub fn id(&self) -> (r: &String)
        ensures
            *r == self.config().definition_id,
    {
        match self {
            GuardDefinition::Schema { config, .. } => &config.definition_id,
            GuardDefinition::LlmJudge { config, .. } => &config.definition_id,
            GuardDefinition::Dataset { config, .. } => &config.definition_id,
        }
    }

    pub open spec fn spec_name(&self) -> String {
        self.config().definition_name
    }

    /// The name under which this guard reports.
    pub fn name(&self) -> (r: &String)
        ensures
            *r == self.spec_name(),
    {
        match self {
            GuardDefinition::Schema { config, .. } => &config.definition_name,
            GuardDefinition::LlmJudge { config, .. } => &config.definition_name,
            GuardDefinition::Dataset { config, .. } => &config.definition_name,
        }
    }

    /// The schema of this guard; for a judge guard, its parameters.
    pub fn schema(&self) -> (r: &Json)
        ensures
            *r == match self {
                GuardDefinition::Schema { schema, .. } => *schema,
                GuardDefinition::LlmJudge { parameters, .. } => *parameters,
                GuardDefinition::Dataset { schema, .. } => *schema,
            },
    {
        match self {
            GuardDefinition::Schema { schema, .. } => schema,
            GuardDefinition::LlmJudge { parameters, .. } => parameters,
            GuardDefinition::Dataset { schema, .. } => schema,
        }
    }
}

/// What a guard's evaluation means for the request: an evaluator error is a
/// guard error; a result that did not pass stops the request where the
/// guard validates; anything else lets it go on.
pub fn enforce(guard: &GuardDefinition, result: Result<GuardResult, String>) -> (r: Result<GuardResult, GuardError>)
    ensures
        match result {
            Err(m) => r == Err::<GuardResult, GuardError>(GuardError::GuardEvaluationError(m)),
            Ok(g) => if guard.config().action == GuardAction::Validate && !g.spec_passed() {
                r is Err && r->Err_0 == GuardError::RequestStoppedAfterGuardEvaluation(guard.spec_name())
            } else {
                r == Ok::<GuardResult, GuardError>(g)
            },
        },
{
    match result {
        Err(m) => Err(GuardError::GuardEvaluationError(m)),
        Ok(g) => {
            if *guard.action() == GuardAction::Validate && !g.passed() {
                Err(GuardError::RequestStoppedAfterGuardEvaluation(guard.name().clone()))
            } else {
                Ok(g)
            }
        },
    }
}

/// The positions of the guards that run at `stage`, in order.
pub fn guards_for_stage(guards: &Vec<GuardDefinition>, stage: GuardStage) -> (r: Vec<usize>)
    ensures
        forall|i: int| 0 <= i < r@.len() ==> (#[trigger] r@[i]) < guards@.len() && guards@[r@[i] as int].config().stage == stage,
        forall|i: int, j: int| 0 <= i < j < r@.len() ==> r@[i] < r@[j],
        forall|k: int| 0 <= k < guards@.len() && (#[trigger] guards@[k]).config().stage == stage ==> r@.contains(k as usize),
{
    let mut r: Vec<usize> = Vec::new();
    let mut i: usize = 0;
    while i < guards.len()
        invariant
            i <= guards.len(),
            forall|a: int| 0 <= a < r@.len() ==> (#[trigger] r@[a]) < i && guards@[r@[a] as int].config().stage == stage,
            forall|a: int, b: int| 0 <= a < b < r@.len() ==> r@[a] < r@[b],
            forall|k: int| 0 <= k < i && (#[trigger] guards@[k]).config().stage == stage ==> r@.contains(k as usize),
        decreases guards.len() - i,
    {
        if *guards[i].stage() == stage {
            let ghost before = r@;
            r.push(i);
            proof {
                assert forall|k: int| 0 <= k < i + 1 && (#[trigger] guards@[k]).config().stage == stage implies r@.contains(k as usize) by {
                    if k < i {
                        let w = choose|w: int| 0 <= w < before.len() && before[w] == k as usize;
                        assert(r@[w] == k as usize);
                    } else {
                        assert(r@[before.len() as int] == i);
                    }
                }
            }
        }
        i += 1;
    }
    r
}

/// Output guards cannot watch a streamed response: with any of them
/// configured, a streaming request is refused.
pub fn check_streaming(guards: &Vec<GuardDefinition>, stream: bool) -> (r: Result<(), GuardError>)
    ensures
        (r is Err) <==> (stream && exists|k: int| 0 <= k < guards@.len() && (#[trigger] guards@[k]).config().stage == GuardStage::Output),
        r is Err ==> r->Err_0 == GuardError::OutputGuardrailsNotSupportedInStreaming,
{
    if !stream {
        return Ok(());
    }
    let mut i: usize = 0;
    while i < guards.len()
        invariant
            stream,
            i <= guards.len(),
            forall|k: int| 0 <= k < i ==> (#[trigger] guards@[k]).config().stage != GuardStage::Output,
        decreases guards.len() - i,
    {
        if *guards[i].stage() == GuardStage::Output {
            assert(guards@[i as int].config().stage == GuardStage::Output);
            return Err(GuardError::OutputGuardrailsNotSupportedInStreaming);
        }
        i += 1;
    }
    Ok(())
}

/// The judge model of a judge guard; any other guard is refused.
pub fn judge_model(guard: &GuardDefinition) -> (r: Result<&String, String>)
    ensures
        match guard {
            GuardDefinition::LlmJudge { model, .. } => r == Ok::<&String, String>(model),
            _ => r is Err && r->Err_0@ == "Guard definition is not a LlmJudge"@,
        },
{
    match guard {
        GuardDefinition::LlmJudge { model, .. } => Ok(model),
        _ => Err(String::from_str("Guard definition is not a LlmJudge")),
    }
}

} // verus!
