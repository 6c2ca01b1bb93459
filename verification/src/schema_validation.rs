//! Schema conformance: a data document checked against a JSON Schema
//! document by the `jsonschema` engine, and the engine's answer put into words.

use crate::json::{json_model, to_outside, JsonModel, JsonValue};
use crate::text::texts;
use vstd::prelude::*;
use vstd::string::StringExecFns;

verus! {

/// What the schema engine answered.
#[derive(Debug, PartialEq, Eq)]
pub enum ConformanceOutcome {
    /// The data conform to the schema.
    Conforms,
    /// The first violation met: where in the data, and what.
    Violation { path: String, message: String },
    /// The schema itself was not accepted.
    CompileError(String),
}

/// The model of an answer of the schema engine.
pub enum OutcomeModel {
    Conforms,
    Violation { path: Seq<char>, message: Seq<char> },
    CompileError(Seq<char>),
}

/// The model of an outcome.
pub open spec fn outcome_model(outcome: ConformanceOutcome) -> OutcomeModel {
    match outcome {
        ConformanceOutcome::Conforms => OutcomeModel::Conforms,
        ConformanceOutcome::Violation { path, message } => OutcomeModel::Violation {
            path: path@,
            message: message@,
        },
        ConformanceOutcome::CompileError(e) => OutcomeModel::CompileError(e@),
    }
}

/// What the schema engine answers for a schema document and a data document:
/// that the schema is not accepted, with the engine's words; or the first
/// violation that its walk over the data meets, with the path in the data
/// and the engine's words; or that the data conform.
pub uninterp spec fn engine_outcome(schema: JsonModel, data: JsonModel) -> OutcomeModel;

/// Hands the two documents to the engine as `serde_json` values: compiles
/// the schema with `jsonschema::validator_for`, and validates the data with
/// `Validator::validate`, which stops at the first violation. The answer is
/// the engine's, and the same for the same documents.
#[verifier::external_body]
fn run_schema_check(schema: &JsonValue, data: &JsonValue) -> (r: ConformanceOutcome)
    ensures
        outcome_model(r) == engine_outcome(json_model(*schema), json_model(*data)),
{
    match jsonschema::validator_for(&to_outside(schema)) {
        Err(e) => ConformanceOutcome::CompileError(e.to_string()),
        Ok(validator) => match validator.validate(&to_outside(data)) {
            Ok(()) => ConformanceOutcome::Conforms,
            Err(e) => ConformanceOutcome::Violation {
                path: e.instance_path().to_string(),
                message: e.to_string(),
            },
        },
    }
}

/// Where a violation is: the path, or `root` for the document itself.
pub open spec fn location(path: Seq<char>) -> Seq<char> {
    if path.len() == 0 {
        "root"@
    } else {
        path
    }
}

/// The messages for an answer: none where the data conform, else one.
pub open spec fn answer_messages(answer: OutcomeModel) -> Seq<Seq<char>> {
    match answer {
        OutcomeModel::Conforms => Seq::<Seq<char>>::empty(),
        OutcomeModel::Violation { path, message } => seq![message + " at "@ + location(path)],
        OutcomeModel::CompileError(e) => seq!["Schema compilation error: "@ + e],
    }
}

/// The messages for an outcome: none where the data conform, else one.
pub open spec fn outcome_messages(outcome: ConformanceOutcome) -> Seq<Seq<char>> {
    answer_messages(outcome_model(outcome))
}

/// Whether `r` is the report of the answer.
pub open spec fn reports(r: Result<(), Vec<String>>, answer: OutcomeModel) -> bool {
    match r {
        Ok(_) => answer is Conforms,
        Err(errors) => !(answer is Conforms) && texts(errors@) == answer_messages(answer),
    }
}

/// Whether `r` is the report of `outcome`.
pub open spec fn is_report_of(r: Result<(), Vec<String>>, outcome: ConformanceOutcome) -> bool {
    reports(r, outcome_model(outcome))
}

/// Puts the engine's answer into words: `Ok` where the data conform, else
/// the one message that says what failed and where.
pub fn conformance_report(outcome: ConformanceOutcome) -> (r: Result<(), Vec<String>>)
    ensures
        is_report_of(r, outcome),
{
    match outcome {
        ConformanceOutcome::Conforms => Ok(()),
        ConformanceOutcome::Violation { path, message } => {
            let mut line = message;
            line.append(" at ");
            if path.as_str().is_empty() {
                line.append("root");
            } else {
                line.append(path.as_str());
            }
            let mut errors: Vec<String> = Vec::new();
            errors.push(line);
            assert(texts(errors@) =~= seq![line@]);
            Err(errors)
        },
        ConformanceOutcome::CompileError(e) => {
            let mut line = String::from_str("Schema compilation error: ");
            line.append(e.as_str());
            let mut errors: Vec<String> = Vec::new();
            errors.push(line);
            assert(texts(errors@) =~= seq![line@]);
            Err(errors)
        },
    }
}

/// Asks the schema engine whether `data` conform to the JSON Schema `schema`.
pub(crate) fn run_check(schema: &JsonValue, data: &JsonValue) -> (r: ConformanceOutcome)
    ensures
        outcome_model(r) == engine_outcome(json_model(*schema), json_model(*data)),
{
    run_schema_check(schema, data)
}

/// Checks `data` against the JSON Schema `schema`: `Ok` where the engine
/// answers that the data conform, else the one message of its answer.
pub fn validate_against_schema(schema: &JsonValue, data: &JsonValue) -> (r: Result<
    (),
    Vec<String>,
>)
    ensures
        reports(r, engine_outcome(json_model(*schema), json_model(*data))),
{
    let outcome = run_check(schema, data);
    conformance_report(outcome)
}

} // verus!
