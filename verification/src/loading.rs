//! The load protocol without the files: from a schema document and a data
//! document to accepted data, or to everything that is wrong with them.
//! Nothing is accepted in part.

use crate::document::{data_from_json, data_of, DataError, DataFault, DataModel};
use crate::json::{json_model, JsonValue};
use crate::models::{TaxonomyData, TaxonomySchema};
use crate::schema::{
    build_schema_from_json, dimensions_of, hierarchy_of, readable, SchemaError,
};
use crate::schema_validation::{
    answer_messages, conformance_report, engine_outcome, outcome_messages, run_check,
    ConformanceOutcome,
};
use crate::text::texts;
use crate::validation::{validate, validation_errors};
use crate::validation_models::lemma_validation_by_model;
use vstd::prelude::*;

verus! {

/// Why data were not accepted, by the stage that refused them.
#[derive(Debug, PartialEq, Eq)]
pub enum LoadError {
    /// The schema document could not be read.
    Schema(SchemaError),
    /// The data document does not conform to the schema document.
    Conformance(Vec<String>),
    /// The data document is not of the shape of data.
    Data(DataError),
    /// The data break rules of the domain: all violations.
    Domain(Vec<String>),
}

/// Whether `messages` are the violations of what `document` denotes as data,
/// against the hierarchy and the facet dimensions of `schema`.
pub open spec fn are_violations_of(
    messages: Seq<Seq<char>>,
    schema: TaxonomySchema,
    document: JsonValue,
    data: TaxonomyData,
) -> bool {
    data_of(json_model(document)) == Ok::<DataModel, DataFault>(data.deep_view()) && messages
        == validation_errors(schema.classical_hierarchy, schema.faceted_dimensions, data.items@)
}

/// The name of the schema file that a data document refers to: its string `schema`.
pub fn schema_reference(data_document: &JsonValue) -> (r: Option<String>)
    ensures
        match r {
            Some(name) => data_document.spec_member("schema"@) matches Some(JsonValue::Text(t))
                && t@ == name@,
            None => !(data_document.spec_member("schema"@) matches Some(JsonValue::Text(t))),
        },
{
    match data_document.get("schema") {
        Some(JsonValue::Text(s)) => Some(s.clone()),
        _ => None,
    }
}

/// Whether `data` are what `document` denotes, and have no violations
/// against the hierarchy and the facet dimensions of `schema`.
pub open spec fn are_valid_data_of(
    schema: TaxonomySchema,
    document: JsonValue,
    data: TaxonomyData,
) -> bool {
    data_of(json_model(document)) == Ok::<DataModel, DataFault>(data.deep_view())
        && validation_errors(
        schema.classical_hierarchy,
        schema.faceted_dimensions,
        data.items@,
    ).len() == 0
}

/// Whether `schema` holds the hierarchy and the facet dimensions that the
/// schema document denotes.
pub open spec fn is_schema_of(schema: TaxonomySchema, document: JsonValue) -> bool {
    &&& document.spec_member("classical_hierarchy"@) matches Some(hv) && hierarchy_of(hv)
        == Some(schema.classical_hierarchy.deep_view())
    &&& document.spec_member("faceted_dimensions"@) matches Some(dv) && dimensions_of(dv)
        == Some(schema.faceted_dimensions.text_lists())
}

/// Decides on a data document, given what the schema engine answered about
/// it: data that do not conform are refused with the engine's message; data
/// that conform are read, and refused where they are not of the shape of
/// data; data that were read are checked by the rules of the domain, and
/// refused with all violations where there are any. Data that pass all of
/// this are accepted.
pub fn accept_data(
    schema: &TaxonomySchema,
    data_document: &JsonValue,
    outcome: ConformanceOutcome,
) -> (r: Result<TaxonomyData, LoadError>)
    ensures
        match r {
            Ok(data) => outcome is Conforms && are_valid_data_of(*schema, *data_document, data),
            Err(LoadError::Conformance(messages)) => !(outcome is Conforms) && texts(messages@)
                == outcome_messages(outcome),
            Err(LoadError::Data(e)) => outcome is Conforms && data_of(json_model(*data_document))
                == Err::<DataModel, DataFault>(e.fault()),
            Err(LoadError::Domain(messages)) => outcome is Conforms && messages@.len() > 0
                && exists|data: TaxonomyData|
                are_violations_of(texts(messages@), *schema, *data_document, data),
            Err(LoadError::Schema(_)) => false,
        },
        forall|data: TaxonomyData|
            outcome is Conforms && #[trigger] are_valid_data_of(*schema, *data_document, data)
                ==> r is Ok,
{
    match conformance_report(outcome) {
        Err(messages) => {
            return Err(LoadError::Conformance(messages));
        },
        Ok(_) => {},
    }
    let data = match data_from_json(data_document) {
        Ok(data) => data,
        Err(e) => {
            return Err(LoadError::Data(e));
        },
    };
    match validate(schema, &data) {
        Ok(_) => Ok(data),
        Err(messages) => {
            proof {
                assert(texts(messages@).len() == messages@.len());
                assert(are_violations_of(texts(messages@), *schema, *data_document, data));
                assert forall|other: TaxonomyData| #[trigger]
                    are_valid_data_of(*schema, *data_document, other) implies false by {
                    lemma_validation_by_model(
                        schema.classical_hierarchy,
                        schema.faceted_dimensions,
                        data.items@,
                        schema.classical_hierarchy,
                        schema.faceted_dimensions,
                        other.items@,
                    );
                }
            }
            Err(LoadError::Domain(messages))
        },
    }
}

/// Reads the schema from its document, asks the schema engine about the data
/// document, and decides on the data as `accept_data` does. A schema
/// document that cannot be read is refused before anything else. Of the
/// others, the answer of the engine for the two documents decides first, the
/// shape of the data next, the rules of the domain last; data that pass all
/// of this are accepted, together with the schema that was read.
pub fn load_documents(schema_document: JsonValue, data_document: &JsonValue) -> (r: Result<
    (TaxonomyData, TaxonomySchema),
    LoadError,
>)
    ensures
        r matches Err(LoadError::Schema(_)) <==> !readable(schema_document),
        readable(schema_document) ==> ({
            let answer = engine_outcome(json_model(schema_document), json_model(*data_document));
            match r {
                Ok((data, schema)) => answer is Conforms && is_schema_of(schema, schema_document)
                    && schema.json_schema == Some(schema_document) && are_valid_data_of(
                    schema,
                    *data_document,
                    data,
                ),
                Err(LoadError::Conformance(messages)) => !(answer is Conforms) && texts(messages@)
                    == answer_messages(answer),
                Err(LoadError::Data(e)) => answer is Conforms && data_of(
                    json_model(*data_document),
                ) == Err::<DataModel, DataFault>(e.fault()),
                Err(LoadError::Domain(messages)) => answer is Conforms && messages@.len() > 0
                    && exists|schema: TaxonomySchema, data: TaxonomyData|
                    is_schema_of(schema, schema_document) && #[trigger] are_violations_of(
                        texts(messages@),
                        schema,
                        *data_document,
                        data,
                    ),
                Err(LoadError::Schema(_)) => false,
            }
        }),
        forall|schema: TaxonomySchema, data: TaxonomyData|
            engine_outcome(json_model(schema_document), json_model(*data_document)) is Conforms
                && is_schema_of(schema, schema_document) && #[trigger] are_valid_data_of(
                schema,
                *data_document,
                data,
            ) ==> r is Ok,
{
    let outcome = run_check(&schema_document, data_document);
    let schema = match build_schema_from_json(schema_document) {
        Ok(schema) => schema,
        Err(e) => {
            return Err(LoadError::Schema(e));
        },
    };
    assert(is_schema_of(schema, schema_document));
    let r = accept_data(&schema, data_document, outcome);
    proof {
        assert forall|other: TaxonomySchema, data: TaxonomyData|
            outcome is Conforms && is_schema_of(other, schema_document)
                && #[trigger] are_valid_data_of(other, *data_document, data) implies r is Ok by {
            lemma_validation_by_model(
                other.classical_hierarchy,
                other.faceted_dimensions,
                data.items@,
                schema.classical_hierarchy,
                schema.faceted_dimensions,
                data.items@,
            );
            assert(are_valid_data_of(schema, *data_document, data));
        }
    }
    match r {
        Ok(data) => Ok((data, schema)),
        Err(e) => {
            proof {
                if e is Domain {
                    let d = choose|d: TaxonomyData|
                        are_violations_of(texts(e->Domain_0@), schema, *data_document, d);
                    assert(are_violations_of(texts(e->Domain_0@), schema, *data_document, d));
                }
            }
            Err(e)
        },
    }
}

} // verus!
