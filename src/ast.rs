//! The shape of parsed schema and executable documents that the indexer and
//! the extractor read.
use vstd::prelude::*;

verus! {

/// A reference to a type, possibly wrapped in list and non-null markers.
pub enum TypeRef {
    Named(String),
    NonNull(Box<TypeRef>),
    List(Box<TypeRef>),
}

/// The innermost named type of a type reference.
pub open spec fn named_type(t: TypeRef) -> Seq<char>
    decreases t,
{
    match t {
        TypeRef::Named(n) => n@,
        TypeRef::NonNull(inner) => named_type(*inner),
        TypeRef::List(inner) => named_type(*inner),
    }
}

impl TypeRef {
    /// The innermost named type, with list and non-null wrappers stripped.
    pub fn named(&self) -> (r: String)
        ensures
            r@ == named_type(*self),
        decreases self,
    {
        match self {
            TypeRef::Named(n) => n.clone(),
            TypeRef::NonNull(inner) => inner.named(),
            TypeRef::List(inner) => inner.named(),
        }
    }
}

/// A field declared on an object, interface or input type.
pub struct FieldDef {
    pub name: String,
    pub field_type: TypeRef,
}

/// The kind of a type declaration or extension.
#[derive(PartialEq, Eq, Structural, Clone, Copy, Debug)]
pub enum TypeKind {
    Object,
    Interface,
    InputObject,
    Enum,
    Scalar,
    Union,
}

/// A type declaration or extension, with the fields it declares (none for
/// enums, scalars and unions).
pub struct TypeDecl {
    pub kind: TypeKind,
    pub name: String,
    pub fields: Vec<FieldDef>,
}

/// The root operation types named by a `schema { ... }` block.
pub struct RootNames {
    pub query: Option<String>,
    pub mutation: Option<String>,
    pub subscription: Option<String>,
}

/// A top-level definition of a schema document.
pub enum SchemaItem {
    Schema(RootNames),
    Type(TypeDecl),
    Extension(TypeDecl),
    Directive(String),
}

/// A parsed schema document.
pub struct SchemaDocument {
    pub definitions: Vec<SchemaItem>,
}

/// A field selection, with its nested selections (empty for a leaf).
pub struct FieldSelection {
    pub name: String,
    pub selections: Vec<Selection>,
}

/// One entry of a selection set.
pub enum Selection {
    Field(FieldSelection),
    FragmentSpread(String),
    InlineFragment { type_condition: Option<String>, selections: Vec<Selection> },
}

/// The kind of an operation; a shorthand `{ ... }` operation is a query.
#[derive(PartialEq, Eq, Structural, Clone, Copy, Debug)]
pub enum OperationKind {
    Query,
    Mutation,
    Subscription,
}

/// An operation, with the types of its variables and its selections.
pub struct Operation {
    pub kind: OperationKind,
    pub variable_types: Vec<TypeRef>,
    pub selections: Vec<Selection>,
}

/// A named fragment with its type condition.
pub struct Fragment {
    pub name: String,
    pub type_condition: String,
    pub selections: Vec<Selection>,
}

/// A top-level definition of an executable document.
pub enum Definition {
    Operation(Operation),
    Fragment(Fragment),
}

/// A parsed executable document.
pub struct QueryDocument {
    pub definitions: Vec<Definition>,
}

} // verus!
