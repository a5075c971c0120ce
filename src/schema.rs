//! A schema's index, built once and read by any number of extractions.
use vstd::prelude::*;
use vstd::string::StringExecFns;
use crate::ast::{QueryDocument, SchemaDocument};
use crate::extract::{collect_coordinates, distinct_texts, document_coords, has_subscription, texts};
use crate::index::{build_index, entries_map, index_of, mutation_key, query_key, IndexMap, TypeInfo};

verus! {

/// Why a schema or a document could not be read.
#[derive(PartialEq, Eq, Debug)]
pub enum CoordinateError {
    /// The schema text is not a schema document.
    SchemaParse(String),
    /// The document text is not an executable document.
    DocumentParse(String),
    /// The document holds a subscription operation.
    SubscriptionNotSupported,
}

impl CoordinateError {
    /// A message describing the error.
    pub fn message(&self) -> (r: String)
        ensures
            *self == CoordinateError::SubscriptionNotSupported ==> r@
                == "Schema is not configured to execute subscription"@,
            self matches CoordinateError::SchemaParse(d) ==> r@ == "Failed to parse schema: "@ + d@,
            self matches CoordinateError::DocumentParse(d) ==> r@ == "Failed to parse document: "@ + d@,
    {
        match self {
            CoordinateError::SchemaParse(d) => String::from_str("Failed to parse schema: ").concat(d.as_str()),
            CoordinateError::DocumentParse(d) => String::from_str("Failed to parse document: ").concat(
                d.as_str(),
            ),
            CoordinateError::SubscriptionNotSupported => String::from_str(
                "Schema is not configured to execute subscription",
            ),
        }
    }
}

/// The index of a parsed schema, reusable across documents.
pub struct ParsedSchema {
    types: Vec<TypeInfo>,
}

impl View for ParsedSchema {
    type V = IndexMap;

    closed spec fn view(&self) -> IndexMap {
        entries_map(self.types@)
    }
}

impl ParsedSchema {
    /// Indexes a schema document.
    pub fn new(schema: &SchemaDocument) -> (r: Self)
        ensures
            r@ == index_of(schema.definitions@),
            r@.contains_key(query_key()),
            r@.contains_key(mutation_key()),
    {
        ParsedSchema { types: build_index(&schema.definitions) }
    }

    /// The coordinates that a document references, each once, in no
    /// particular order; an error, and no coordinates, where the document
    /// holds a subscription.
    pub fn extract_schema_coordinates(&self, document: &QueryDocument) -> (r: Result<
        Vec<String>,
        CoordinateError,
    >)
        ensures
            r is Err <==> has_subscription(document.definitions@),
            r matches Err(e) ==> e == CoordinateError::SubscriptionNotSupported,
            r matches Ok(v) ==> distinct_texts(v@) && texts(v@) == document_coords(
                self@,
                document.definitions@,
            ),
    {
        match collect_coordinates(&self.types, &document.definitions) {
            Some(v) => Ok(v),
            None => Err(CoordinateError::SubscriptionNotSupported),
        }
    }
}

} // verus!
