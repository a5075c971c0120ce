//! Extraction of schema coordinates (`Type.field` and bare `Type` names)
//! from GraphQL documents, checked against an index built from a schema.
pub mod ast;
pub mod extract;
pub mod index;
pub mod laws;
pub mod schema;

pub use ast::{
    Definition, FieldDef, FieldSelection, Fragment, Operation, OperationKind, QueryDocument, RootNames,
    SchemaDocument, SchemaItem, Selection, TypeDecl, TypeKind, TypeRef,
};
pub use schema::{CoordinateError, ParsedSchema};
