use graphql_parser::{query as q, schema as s};
use schema_coordinates::{
    CoordinateError, Definition, FieldDef, FieldSelection, Fragment, Operation, OperationKind, ParsedSchema,
    QueryDocument, RootNames, SchemaDocument, SchemaItem, Selection, TypeDecl, TypeKind, TypeRef,
};

const PETS_SCHEMA: &str = r#"
schema {
    query: Root
    mutation: Mutation
}

type Root {
    animalOwner: Human
    allSpecies: [Animal]
    pets: [Pet]
}

type Human {
    name: String
    contactDetails: ContactDetails
}

type ContactDetails {
    email: String
}

extend type ContactDetails {
    address: Address
}

type Address {
    zip: String
}

interface Animal {
    name: String
}

type Dog implements Animal {
    name: String
    breed: String
}

type Cat implements Animal {
    name: String
    favoriteMilkBrand: String
}

type Parrot implements Animal {
    name: String
    wingSpan: Int
}

union Pet = Dog | Cat | Parrot

input VetDetailsInput {
    name: String
}

type Vet {
    name: String
}

type Mutation {
    addCat(name: String): Cat
    addVet(details: VetDetailsInput!): Vet
}
"#;

fn type_ref(t: &q::Type<'_, String>) -> TypeRef {
    match t {
        q::Type::NamedType(n) => TypeRef::Named(n.clone()),
        q::Type::ListType(inner) => TypeRef::List(Box::new(type_ref(inner))),
        q::Type::NonNullType(inner) => TypeRef::NonNull(Box::new(type_ref(inner))),
    }
}

fn decl(kind: TypeKind, name: &str, fields: Vec<FieldDef>) -> TypeDecl {
    TypeDecl { kind, name: name.to_string(), fields }
}

fn object_fields(fields: &[s::Field<'_, String>]) -> Vec<FieldDef> {
    fields.iter().map(|f| FieldDef { name: f.name.clone(), field_type: type_ref(&f.field_type) }).collect()
}

fn input_fields(fields: &[s::InputValue<'_, String>]) -> Vec<FieldDef> {
    fields.iter().map(|f| FieldDef { name: f.name.clone(), field_type: type_ref(&f.value_type) }).collect()
}

fn type_definition(t: &s::TypeDefinition<'_, String>) -> TypeDecl {
    match t {
        s::TypeDefinition::Scalar(d) => decl(TypeKind::Scalar, &d.name, vec![]),
        s::TypeDefinition::Object(d) => decl(TypeKind::Object, &d.name, object_fields(&d.fields)),
        s::TypeDefinition::Interface(d) => decl(TypeKind::Interface, &d.name, object_fields(&d.fields)),
        s::TypeDefinition::Union(d) => decl(TypeKind::Union, &d.name, vec![]),
        s::TypeDefinition::Enum(d) => decl(TypeKind::Enum, &d.name, vec![]),
        s::TypeDefinition::InputObject(d) => decl(TypeKind::InputObject, &d.name, input_fields(&d.fields)),
    }
}

fn type_extension(t: &s::TypeExtension<'_, String>) -> TypeDecl {
    match t {
        s::TypeExtension::Scalar(d) => decl(TypeKind::Scalar, &d.name, vec![]),
        s::TypeExtension::Object(d) => decl(TypeKind::Object, &d.name, object_fields(&d.fields)),
        s::TypeExtension::Interface(d) => decl(TypeKind::Interface, &d.name, object_fields(&d.fields)),
        s::TypeExtension::Union(d) => decl(TypeKind::Union, &d.name, vec![]),
        s::TypeExtension::Enum(d) => decl(TypeKind::Enum, &d.name, vec![]),
        s::TypeExtension::InputObject(d) => decl(TypeKind::InputObject, &d.name, input_fields(&d.fields)),
    }
}

fn schema_document(text: &str) -> SchemaDocument {
    let doc = s::parse_schema::<String>(text).expect("Should parse schema");
    let definitions = doc
        .definitions
        .iter()
        .map(|d| match d {
            s::Definition::SchemaDefinition(r) => SchemaItem::Schema(RootNames {
                query: r.query.clone(),
                mutation: r.mutation.clone(),
                subscription: r.subscription.clone(),
            }),
            s::Definition::TypeDefinition(t) => SchemaItem::Type(type_definition(t)),
            s::Definition::TypeExtension(t) => SchemaItem::Extension(type_extension(t)),
            s::Definition::DirectiveDefinition(d) => SchemaItem::Directive(d.name.clone()),
        })
        .collect();
    SchemaDocument { definitions }
}

fn selections(set: &q::SelectionSet<'_, String>) -> Vec<Selection> {
    set.items
        .iter()
        .map(|item| match item {
            q::Selection::Field(f) => {
                Selection::Field(FieldSelection { name: f.name.clone(), selections: selections(&f.selection_set) })
            }
            q::Selection::FragmentSpread(sp) => Selection::FragmentSpread(sp.fragment_name.clone()),
            q::Selection::InlineFragment(i) => Selection::InlineFragment {
                type_condition: i.type_condition.as_ref().map(|q::TypeCondition::On(t)| t.clone()),
                selections: selections(&i.selection_set),
            },
        })
        .collect()
}

fn operation(kind: OperationKind, vars: &[q::VariableDefinition<'_, String>], set: &q::SelectionSet<'_, String>) -> Operation {
    Operation { kind, variable_types: vars.iter().map(|v| type_ref(&v.var_type)).collect(), selections: selections(set) }
}

fn query_document(text: &str) -> QueryDocument {
    let doc = q::parse_query::<String>(text).expect("Should parse document");
    let definitions = doc
        .definitions
        .iter()
        .map(|d| match d {
            q::Definition::Operation(q::OperationDefinition::SelectionSet(set)) => {
                Definition::Operation(operation(OperationKind::Query, &[], set))
            }
            q::Definition::Operation(q::OperationDefinition::Query(o)) => {
                Definition::Operation(operation(OperationKind::Query, &o.variable_definitions, &o.selection_set))
            }
            q::Definition::Operation(q::OperationDefinition::Mutation(o)) => {
                Definition::Operation(operation(OperationKind::Mutation, &o.variable_definitions, &o.selection_set))
            }
            q::Definition::Operation(q::OperationDefinition::Subscription(o)) => Definition::Operation(operation(
                OperationKind::Subscription,
                &o.variable_definitions,
                &o.selection_set,
            )),
            q::Definition::Fragment(f) => {
                let q::TypeCondition::On(t) = &f.type_condition;
                Definition::Fragment(Fragment {
                    name: f.name.clone(),
                    type_condition: t.clone(),
                    selections: selections(&f.selection_set),
                })
            }
        })
        .collect();
    QueryDocument { definitions }
}

fn try_extract(document: &str, schema: &str) -> Result<Vec<String>, CoordinateError> {
    let parsed_schema = ParsedSchema::new(&schema_document(schema));
    parsed_schema.extract_schema_coordinates(&query_document(document))
}

fn extract_and_sort(document: &str, schema: &str) -> Vec<String> {
    let mut result = match try_extract(document, schema) {
        Ok(v) => v,
        Err(e) => panic!("Should extract schema coordinates: {}", e.message()),
    };
    result.sort();
    result
}
#[test]
fn test_basic_query() {
    let document = r#"
        {
            animalOwner {
                name
                contactDetails {
                    email
                }
            }
        }
    "#;

    let result = extract_and_sort(document, PETS_SCHEMA);
    assert_eq!(
        result,
        vec![
            "ContactDetails.email",
            "Human.contactDetails",
            "Human.name",
            "Root.animalOwner",
        ]
    );
}

#[test]
fn test_basic_mutation() {
    let document = r#"
        mutation {
            addCat(name: "Palmerston") {
                name
                favoriteMilkBrand
            }
        }
    "#;

    let result = extract_and_sort(document, PETS_SCHEMA);
    assert_eq!(
        result,
        vec!["Cat.favoriteMilkBrand", "Cat.name", "Mutation.addCat"]
    );
}

#[test]
fn test_extended_types() {
    let document = r#"
        {
            animalOwner {
                name
                contactDetails {
                    email
                    address {
                        zip
                    }
                }
            }
        }
    "#;

    let result = extract_and_sort(document, PETS_SCHEMA);
    assert_eq!(
        result,
        vec![
            "Address.zip",
            "ContactDetails.address",
            "ContactDetails.email",
            "Human.contactDetails",
            "Human.name",
            "Root.animalOwner",
        ]
    );
}

#[test]
fn test_multiple_operations() {
    let document = r#"
        {
            animalOwner {
                name
            }
        }
        {
            animalOwner {
                contactDetails {
                    email
                }
            }
        }
    "#;

    let result = extract_and_sort(document, PETS_SCHEMA);
    assert_eq!(
        result,
        vec![
            "ContactDetails.email",
            "Human.contactDetails",
            "Human.name",
            "Root.animalOwner",
        ]
    );
}

#[test]
fn test_includes_non_existent_fields_as_leaf_nodes() {
    let document = r#"
        {
            animalOwner {
                name
                I_DONT_EXIST
                contactDetails {
                    email
                    I_DONT_EXIST
                }
            }
        }
    "#;

    let result = extract_and_sort(document, PETS_SCHEMA);
    assert_eq!(
        result,
        vec![
            "ContactDetails.I_DONT_EXIST",
            "ContactDetails.email",
            "Human.I_DONT_EXIST",
            "Human.contactDetails",
            "Human.name",
            "Root.animalOwner",
        ]
    );
}

#[test]
fn test_includes_non_existent_fields_as_non_leaf_nodes() {
    let document = r#"
        {
            animalOwner {
                name
                contactDetails {
                    email
                    I_DONT_EXIST {
                        foo
                        bar
                    }
                }
            }
        }
    "#;

    let result = extract_and_sort(document, PETS_SCHEMA);
    assert_eq!(
        result,
        vec![
            "ContactDetails.I_DONT_EXIST",
            "ContactDetails.email",
            "Human.contactDetails",
            "Human.name",
            "Root.animalOwner",
        ]
    );
}

#[test]
fn test_fragments() {
    let document = r#"
        {
            animalOwner {
                name
            }
            allSpecies {
                ...doggoDetails
                ...catFacts
            }
            pets {
                ...parrotParticulars
            }
        }

        fragment doggoDetails on Dog {
            breed
        }

        fragment catFacts on Cat {
            favoriteMilkBrand
            name
        }

        fragment parrotParticulars on Parrot {
            wingSpan
        }
    "#;

    let result = extract_and_sort(document, PETS_SCHEMA);
    assert_eq!(
        result,
        vec![
            "Cat.favoriteMilkBrand",
            "Cat.name",
            "Dog.breed",
            "Human.name",
            "Parrot.wingSpan",
            "Root.allSpecies",
            "Root.animalOwner",
            "Root.pets",
        ]
    );
}

#[test]
fn test_fragments_with_interface_fields() {
    let document = r#"
        {
            animalOwner {
                name
            }
            allSpecies {
                name
                ...doggoDetails
            }
        }

        fragment doggoDetails on Dog {
            breed
            name
        }
    "#;

    let result = extract_and_sort(document, PETS_SCHEMA);
    assert_eq!(
        result,
        vec![
            "Animal.name",
            "Dog.breed",
            "Dog.name",
            "Human.name",
            "Root.allSpecies",
            "Root.animalOwner",
        ]
    );
}

#[test]
fn test_inline_fragments() {
    let document = r#"
        {
            animalOwner {
                name
            }
            allSpecies {
                ... on Dog {
                    breed
                }
                ... on Cat {
                    favoriteMilkBrand
                    name
                }
            }
            pets {
                ... on Parrot {
                    wingSpan
                }
            }
        }
    "#;

    let result = extract_and_sort(document, PETS_SCHEMA);
    assert_eq!(
        result,
        vec![
            "Cat.favoriteMilkBrand",
            "Cat.name",
            "Dog.breed",
            "Human.name",
            "Parrot.wingSpan",
            "Root.allSpecies",
            "Root.animalOwner",
            "Root.pets",
        ]
    );
}

#[test]
fn test_inline_fragments_with_interface_fields() {
    let document = r#"
        {
            animalOwner {
                name
            }
            allSpecies {
                name
                ... on Dog {
                    breed
                    name
                }
            }
        }
    "#;

    let result = extract_and_sort(document, PETS_SCHEMA);
    assert_eq!(
        result,
        vec![
            "Animal.name",
            "Dog.breed",
            "Dog.name",
            "Human.name",
            "Root.allSpecies",
            "Root.animalOwner",
        ]
    );
}

#[test]
fn test_inline_fragments_without_type_condition() {
    let document = r#"
        query Foo($expandedInfo: Boolean) {
            allSpecies {
                ... @include(if: $expandedInfo) {
                    name
                }
            }
        }
    "#;

    let result = extract_and_sort(document, PETS_SCHEMA);
    assert_eq!(result, vec!["Animal.name", "Root.allSpecies"]);
}

#[test]
fn test_copes_with_types_that_dont_exist_in_schema() {
    let document = r#"
        {
            allSpecies {
                name
                ... on Snake {
                    skin {
                        color
                    }
                }
            }
        }
    "#;

    let result = extract_and_sort(document, PETS_SCHEMA);
    assert_eq!(result, vec!["Animal.name", "Root.allSpecies", "Snake.skin"]);
}

#[test]
fn test_shows_inputs() {
    let document = r#"
        mutation AddVet($vetInfo: VetDetailsInput!, $somethingElse: String!) {
            addVet(details: $vetInfo)
        }
    "#;

    let result = extract_and_sort(document, PETS_SCHEMA);
    assert_eq!(result, vec!["Mutation.addVet", "VetDetailsInput"]);
}

#[test]
fn test_mutation_with_arguments() {
    let document = r#"
        mutation AddCat($name: String) {
            addCat(name: $name) {
                name
            }
        }
    "#;

    let result = extract_and_sort(document, PETS_SCHEMA);
    assert_eq!(result, vec!["Cat.name", "Mutation.addCat"]);
}

#[test]
#[should_panic(expected = "Schema is not configured to execute subscription")]
fn test_throws_error_on_unsupported_operation_types() {
    let document = r#"
        subscription Foo {
            bar
        }
    "#;

    let _ = extract_and_sort(document, PETS_SCHEMA);
}

const ROOT_SCHEMA: &str = "schema { query: Root } type Root { animalOwner: Human } type Human { name: String, contactDetails: ContactDetails } type ContactDetails { email: String }";

#[test]
fn unknown_field_is_reported_without_its_children() {
    let result = extract_and_sort("{ animalOwner { name bogus { deeper } } }", ROOT_SCHEMA);
    assert_eq!(result, vec!["Human.bogus", "Human.name", "Root.animalOwner"]);
}

#[test]
fn root_fields_use_the_declared_root_name() {
    let result = extract_and_sort("{ animalOwner { name } }", ROOT_SCHEMA);
    assert!(result.contains(&"Root.animalOwner".to_string()));
    assert!(result.iter().all(|c| !c.starts_with("Query.")));
}

#[test]
fn undeclared_mutation_root_is_a_leaf_alias() {
    let schema = "schema { query: Q mutation: M } type Q { a: Int }";
    let result = extract_and_sort("mutation { doIt { inner } }", schema);
    assert_eq!(result, vec!["M.doIt"]);
}

#[test]
fn subscription_beside_a_query_fails_the_whole_call() {
    let document = "{ animalOwner { name } } subscription { foo }";
    let result = try_extract(document, ROOT_SCHEMA);
    assert_eq!(result, Err(CoordinateError::SubscriptionNotSupported));
}

#[test]
fn subscription_error_message() {
    assert_eq!(
        CoordinateError::SubscriptionNotSupported.message(),
        "Schema is not configured to execute subscription"
    );
    assert_eq!(CoordinateError::SchemaParse("x".to_string()).message(), "Failed to parse schema: x");
    assert_eq!(CoordinateError::DocumentParse("y".to_string()).message(), "Failed to parse document: y");
}

#[test]
fn repeated_calls_give_the_same_set() {
    let parsed = ParsedSchema::new(&schema_document(PETS_SCHEMA));
    let doc = query_document("{ animalOwner { name contactDetails { email } } allSpecies { ...dog } } fragment dog on Dog { breed }");
    let mut first = parsed.extract_schema_coordinates(&doc).unwrap();
    let mut second = parsed.extract_schema_coordinates(&doc).unwrap();
    first.sort();
    second.sort();
    assert_eq!(first, second);
}

#[test]
fn each_coordinate_appears_once() {
    let document = r#"
        { animalOwner { name name } allSpecies { ...a ...a ... on Dog { breed } } }
        { animalOwner { name } }
        fragment a on Dog { breed name }
    "#;
    let result = try_extract(document, PETS_SCHEMA).unwrap();
    let mut deduped = result.clone();
    deduped.sort();
    deduped.dedup();
    assert_eq!(result.len(), deduped.len());
    assert_eq!(deduped, vec!["Dog.breed", "Dog.name", "Human.name", "Root.allSpecies", "Root.animalOwner"]);
}

#[test]
fn fragments_match_their_inlined_form() {
    let with_fragments = r#"
        { animalOwner { ...owner } allSpecies { ... @skip(if: false) { name } ...dog } }
        fragment owner on Human { name contactDetails { email } }
        fragment dog on Dog { breed }
    "#;
    let inlined = r#"
        { animalOwner { name contactDetails { email } } allSpecies { name ... on Dog { breed } } }
    "#;
    assert_eq!(extract_and_sort(with_fragments, PETS_SCHEMA), extract_and_sort(inlined, PETS_SCHEMA));
}

#[test]
fn spread_of_a_missing_fragment_adds_nothing() {
    let result = extract_and_sort("{ animalOwner { ...nowhere name } }", PETS_SCHEMA);
    assert_eq!(result, vec!["Human.name", "Root.animalOwner"]);
}

#[test]
fn self_spreading_fragment_terminates() {
    let document = "{ animalOwner { ...me } } fragment me on Human { name ...me }";
    let result = extract_and_sort(document, PETS_SCHEMA);
    assert_eq!(result, vec!["Human.name", "Root.animalOwner"]);
}

#[test]
fn extension_before_its_base_is_merged() {
    let schema = r#"
        extend type Foo { b: Bar }
        type Foo { a: Int }
        type Bar { x: Int }
        type Query { foo: Foo }
    "#;
    let result = extract_and_sort("{ foo { a b { x } } }", schema);
    assert_eq!(result, vec!["Bar.x", "Foo.a", "Foo.b", "Query.foo"]);
}

#[test]
fn wrapped_variable_types_are_unwrapped() {
    let document = "mutation ($v: [VetDetailsInput!]!, $n: Int, $p: Pet) { addVet(details: $v) { name } }";
    let result = extract_and_sort(document, PETS_SCHEMA);
    assert_eq!(result, vec!["Mutation.addVet", "Vet.name", "VetDetailsInput"]);
}

#[test]
fn empty_document_has_no_coordinates() {
    let parsed = ParsedSchema::new(&schema_document(PETS_SCHEMA));
    let result = parsed.extract_schema_coordinates(&QueryDocument { definitions: vec![] });
    assert_eq!(result, Ok(vec![]));
}

#[test]
fn type_ref_strips_wrappers() {
    let t = TypeRef::List(Box::new(TypeRef::NonNull(Box::new(TypeRef::Named("Dog".to_string())))));
    assert_eq!(t.named(), "Dog");
}

#[test]
fn schema_without_objects_still_indexes_roots() {
    let result = extract_and_sort("{ anything { nested } }", "scalar Date");
    assert_eq!(result, vec!["Query.anything"]);
}

#[test]
fn root_keys_are_always_indexed() {
    let schema = "enum Color { RED GREEN }";
    let result = extract_and_sort("query ($m: Mutation, $q: [Query!], $c: Color) { anything }", schema);
    assert_eq!(result, vec!["Mutation", "Query", "Query.anything"]);
}

#[test]
fn declared_root_keeps_its_own_entry() {
    let schema = "type Query { a: A } type A { b: Int }";
    let result = extract_and_sort("query ($q: Query) { a { b } }", schema);
    assert_eq!(result, vec!["A.b", "Query", "Query.a"]);
}
