use graphql_parser::query as gq;
use graphql_parser::schema as gs;

use std::collections::HashSet;

use hive_core::agent::{ExecutionReport, UsageAgent};
use hive_core::ast::{
    Argument, Definition, Directive, Document, Fragment, ObjectField, Operation, OperationKind,
    Selection, Type, Value, VariableDefinition, Wrapper,
};
use hive_core::normalize::normalize_document;
use hive_core::processor::{OperationProcessor, ProcessedOperation};
use hive_core::schema::{
    DirectiveDefinition, FieldDefinition, InputValueDefinition, Schema, TypeDefinition, TypeKind,
};

fn to_type(t: &gq::Type<'_, String>) -> Type {
    let mut wrappers = Vec::new();
    let mut cur = t;
    loop {
        match cur {
            gq::Type::NamedType(name) => {
                return Type { name: name.clone(), wrappers };
            }
            gq::Type::ListType(inner) => {
                wrappers.push(Wrapper::List);
                cur = inner;
            }
            gq::Type::NonNullType(inner) => {
                wrappers.push(Wrapper::NonNull);
                cur = inner;
            }
        }
    }
}

fn to_value(v: &gq::Value<'_, String>) -> Value {
    match v {
        gq::Value::Variable(name) => Value::Variable(name.clone()),
        gq::Value::Int(n) => Value::Int(n.as_i64().unwrap()),
        gq::Value::Float(f) => Value::Float(f.to_bits()),
        gq::Value::String(s) => Value::String(s.clone()),
        gq::Value::Boolean(b) => Value::Boolean(*b),
        gq::Value::Null => Value::Null,
        gq::Value::Enum(name) => Value::Enum(name.clone()),
        gq::Value::List(items) => Value::List(items.iter().map(to_value).collect()),
        gq::Value::Object(fields) => Value::Object(
            fields
                .iter()
                .map(|(name, value)| ObjectField { name: name.clone(), value: to_value(value) })
                .collect(),
        ),
    }
}

fn to_arguments(arguments: &[(String, gq::Value<'_, String>)]) -> Vec<Argument> {
    arguments
        .iter()
        .map(|(name, value)| Argument { name: name.clone(), value: to_value(value) })
        .collect()
}

fn to_directives(directives: &[gq::Directive<'_, String>]) -> Vec<Directive> {
    directives
        .iter()
        .map(|d| Directive { name: d.name.clone(), arguments: to_arguments(&d.arguments) })
        .collect()
}

fn to_selections(set: &gq::SelectionSet<'_, String>) -> Vec<Selection> {
    set.items
        .iter()
        .map(|s| match s {
            gq::Selection::Field(f) => Selection::Field {
                alias: f.alias.clone(),
                name: f.name.clone(),
                arguments: to_arguments(&f.arguments),
                directives: to_directives(&f.directives),
                selection_set: to_selections(&f.selection_set),
            },
            gq::Selection::FragmentSpread(s) => Selection::FragmentSpread {
                fragment_name: s.fragment_name.clone(),
                directives: to_directives(&s.directives),
            },
            gq::Selection::InlineFragment(f) => Selection::InlineFragment {
                type_condition: f.type_condition.as_ref().map(|gq::TypeCondition::On(n)| n.clone()),
                directives: to_directives(&f.directives),
                selection_set: to_selections(&f.selection_set),
            },
        })
        .collect()
}

fn to_variables(vars: &[gq::VariableDefinition<'_, String>]) -> Vec<VariableDefinition> {
    vars.iter()
        .map(|v| VariableDefinition {
            name: v.name.clone(),
            var_type: to_type(&v.var_type),
            default_value: v.default_value.as_ref().map(to_value),
        })
        .collect()
}

fn to_document(doc: &gq::Document<'_, String>) -> Document {
    let definitions = doc
        .definitions
        .iter()
        .map(|d| match d {
            gq::Definition::Operation(gq::OperationDefinition::SelectionSet(set)) => {
                Definition::Operation(Operation {
                    kind: OperationKind::Shorthand,
                    name: None,
                    variable_definitions: Vec::new(),
                    directives: Vec::new(),
                    selection_set: to_selections(set),
                })
            }
            gq::Definition::Operation(gq::OperationDefinition::Query(q)) => {
                Definition::Operation(Operation {
                    kind: OperationKind::Query,
                    name: q.name.clone(),
                    variable_definitions: to_variables(&q.variable_definitions),
                    directives: to_directives(&q.directives),
                    selection_set: to_selections(&q.selection_set),
                })
            }
            gq::Definition::Operation(gq::OperationDefinition::Mutation(q)) => {
                Definition::Operation(Operation {
                    kind: OperationKind::Mutation,
                    name: q.name.clone(),
                    variable_definitions: to_variables(&q.variable_definitions),
                    directives: to_directives(&q.directives),
                    selection_set: to_selections(&q.selection_set),
                })
            }
            gq::Definition::Operation(gq::OperationDefinition::Subscription(q)) => {
                Definition::Operation(Operation {
                    kind: OperationKind::Subscription,
                    name: q.name.clone(),
                    variable_definitions: to_variables(&q.variable_definitions),
                    directives: to_directives(&q.directives),
                    selection_set: to_selections(&q.selection_set),
                })
            }
            gq::Definition::Fragment(f) => {
                let gq::TypeCondition::On(condition) = &f.type_condition;
                Definition::Fragment(Fragment {
                    name: f.name.clone(),
                    type_condition: condition.clone(),
                    directives: to_directives(&f.directives),
                    selection_set: to_selections(&f.selection_set),
                })
            }
        })
        .collect();
    Document { definitions }
}

fn to_input_values(values: &[gs::InputValue<'_, String>]) -> Vec<InputValueDefinition> {
    values
        .iter()
        .map(|v| InputValueDefinition { name: v.name.clone(), value_type: to_type(&v.value_type) })
        .collect()
}

fn to_fields(fields: &[gs::Field<'_, String>]) -> Vec<FieldDefinition> {
    fields
        .iter()
        .map(|f| FieldDefinition {
            name: f.name.clone(),
            field_type: to_type(&f.field_type),
            arguments: to_input_values(&f.arguments),
        })
        .collect()
}

fn plain_type(name: &str, kind: TypeKind) -> TypeDefinition {
    TypeDefinition {
        name: name.to_string(),
        kind,
        fields: Vec::new(),
        input_fields: Vec::new(),
        values: Vec::new(),
    }
}

fn to_schema(doc: &gs::Document<'_, String>) -> Schema {
    let mut schema = Schema {
        types: Vec::new(),
        directives: Vec::new(),
        query_type: None,
        mutation_type: None,
        subscription_type: None,
    };
    for definition in &doc.definitions {
        match definition {
            gs::Definition::SchemaDefinition(s) => {
                schema.query_type = schema.query_type.take().or(s.query.clone());
                schema.mutation_type = schema.mutation_type.take().or(s.mutation.clone());
                schema.subscription_type =
                    schema.subscription_type.take().or(s.subscription.clone());
            }
            gs::Definition::TypeDefinition(t) => schema.types.push(match t {
                gs::TypeDefinition::Scalar(s) => plain_type(&s.name, TypeKind::Scalar),
                gs::TypeDefinition::Union(u) => plain_type(&u.name, TypeKind::Union),
                gs::TypeDefinition::Object(o) => TypeDefinition {
                    fields: to_fields(&o.fields),
                    ..plain_type(&o.name, TypeKind::Object)
                },
                gs::TypeDefinition::Interface(i) => TypeDefinition {
                    fields: to_fields(&i.fields),
                    ..plain_type(&i.name, TypeKind::Interface)
                },
                gs::TypeDefinition::Enum(e) => TypeDefinition {
                    values: e.values.iter().map(|v| v.name.clone()).collect(),
                    ..plain_type(&e.name, TypeKind::Enum)
                },
                gs::TypeDefinition::InputObject(i) => TypeDefinition {
                    input_fields: to_input_values(&i.fields),
                    ..plain_type(&i.name, TypeKind::InputObject)
                },
            }),
            gs::Definition::TypeExtension(_) => {}
            gs::Definition::DirectiveDefinition(d) => schema.directives.push(DirectiveDefinition {
                name: d.name.clone(),
                arguments: to_input_values(&d.arguments),
            }),
        }
    }
    schema
}

fn from_type(t: &Type) -> gq::Type<'static, String> {
    let mut out = gq::Type::NamedType(t.name.clone());
    for w in t.wrappers.iter().rev() {
        out = match w {
            Wrapper::List => gq::Type::ListType(Box::new(out)),
            Wrapper::NonNull => gq::Type::NonNullType(Box::new(out)),
        };
    }
    out
}

fn from_value(v: &Value) -> gq::Value<'static, String> {
    match v {
        Value::Variable(name) => gq::Value::Variable(name.clone()),
        Value::Int(n) => gq::Value::Int(gq::Number::from(*n as i32)),
        Value::Float(bits) => gq::Value::Float(f64::from_bits(*bits)),
        Value::String(s) => gq::Value::String(s.clone()),
        Value::Boolean(b) => gq::Value::Boolean(*b),
        Value::Null => gq::Value::Null,
        Value::Enum(name) => gq::Value::Enum(name.clone()),
        Value::List(items) => gq::Value::List(items.iter().map(from_value).collect()),
        Value::Object(fields) => gq::Value::Object(
            fields.iter().map(|f| (f.name.clone(), from_value(&f.value))).collect(),
        ),
    }
}

fn from_arguments(arguments: &[Argument]) -> Vec<(String, gq::Value<'static, String>)> {
    arguments.iter().map(|a| (a.name.clone(), from_value(&a.value))).collect()
}

fn from_directives(directives: &[Directive]) -> Vec<gq::Directive<'static, String>> {
    directives
        .iter()
        .map(|d| gq::Directive {
            position: graphql_parser::Pos::default(),
            name: d.name.clone(),
            arguments: from_arguments(&d.arguments),
        })
        .collect()
}

fn from_selections(items: &[Selection]) -> gq::SelectionSet<'static, String> {
    gq::SelectionSet {
        span: (graphql_parser::Pos::default(), graphql_parser::Pos::default()),
        items: items
            .iter()
            .map(|s| match s {
                Selection::Field { alias, name, arguments, directives, selection_set } => {
                    gq::Selection::Field(gq::Field {
                        position: graphql_parser::Pos::default(),
                        alias: alias.clone(),
                        name: name.clone(),
                        arguments: from_arguments(arguments),
                        directives: from_directives(directives),
                        selection_set: from_selections(selection_set),
                    })
                }
                Selection::FragmentSpread { fragment_name, directives } => {
                    gq::Selection::FragmentSpread(gq::FragmentSpread {
                        position: graphql_parser::Pos::default(),
                        fragment_name: fragment_name.clone(),
                        directives: from_directives(directives),
                    })
                }
                Selection::InlineFragment { type_condition, directives, selection_set } => {
                    gq::Selection::InlineFragment(gq::InlineFragment {
                        position: graphql_parser::Pos::default(),
                        type_condition: type_condition.clone().map(gq::TypeCondition::On),
                        directives: from_directives(directives),
                        selection_set: from_selections(selection_set),
                    })
                }
            })
            .collect(),
    }
}

fn from_variables(vars: &[VariableDefinition]) -> Vec<gq::VariableDefinition<'static, String>> {
    vars.iter()
        .map(|v| gq::VariableDefinition {
            position: graphql_parser::Pos::default(),
            name: v.name.clone(),
            var_type: from_type(&v.var_type),
            default_value: v.default_value.as_ref().map(from_value),
        })
        .collect()
}

fn from_document(doc: &Document) -> gq::Document<'static, String> {
    let definitions = doc
        .definitions
        .iter()
        .map(|d| match d {
            Definition::Operation(op) => gq::Definition::Operation(match op.kind {
                OperationKind::Shorthand => {
                    gq::OperationDefinition::SelectionSet(from_selections(&op.selection_set))
                }
                OperationKind::Query => gq::OperationDefinition::Query(gq::Query {
                    position: graphql_parser::Pos::default(),
                    name: op.name.clone(),
                    variable_definitions: from_variables(&op.variable_definitions),
                    directives: from_directives(&op.directives),
                    selection_set: from_selections(&op.selection_set),
                }),
                OperationKind::Mutation => gq::OperationDefinition::Mutation(gq::Mutation {
                    position: graphql_parser::Pos::default(),
                    name: op.name.clone(),
                    variable_definitions: from_variables(&op.variable_definitions),
                    directives: from_directives(&op.directives),
                    selection_set: from_selections(&op.selection_set),
                }),
                OperationKind::Subscription => {
                    gq::OperationDefinition::Subscription(gq::Subscription {
                        position: graphql_parser::Pos::default(),
                        name: op.name.clone(),
                        variable_definitions: from_variables(&op.variable_definitions),
                        directives: from_directives(&op.directives),
                        selection_set: from_selections(&op.selection_set),
                    })
                }
            }),
            Definition::Fragment(f) => gq::Definition::Fragment(gq::FragmentDefinition {
                position: graphql_parser::Pos::default(),
                name: f.name.clone(),
                type_condition: gq::TypeCondition::On(f.type_condition.clone()),
                directives: from_directives(&f.directives),
                selection_set: from_selections(&f.selection_set),
            }),
        })
        .collect();
    gq::Document { definitions }
}

fn parse(text: &str) -> Result<Document, String> {
    graphql_parser::parse_query::<String>(text).map(|d| to_document(&d)).map_err(|e| e.to_string())
}

fn print(document: &Document) -> Result<String, String> {
    Ok(format!("{}", from_document(document)))
}

const SCHEMA_SDL: &str = "
    type Query {
        project(selector: ProjectSelectorInput!): Project
        projectsByType(type: ProjectType!): [Project!]!
        projectsByTypes(types: [ProjectType!]!): [Project!]!
        projects(filter: FilterInput, and: [FilterInput!]): [Project!]!
    }

    type Mutation {
        deleteProject(selector: ProjectSelectorInput!): DeleteProjectPayload!
    }

    input ProjectSelectorInput {
        organization: ID!
        project: ID!
    }

    input FilterInput {
        type: ProjectType
        pagination: PaginationInput
        order: [ProjectOrderByInput!]
    }

    input PaginationInput {
        limit: Int
        offset: Int
    }

    input ProjectOrderByInput {
        field: String!
        direction: OrderDirection
    }

    enum OrderDirection {
        ASC
        DESC
    }

    type ProjectSelector {
        organization: ID!
        project: ID!
    }

    type DeleteProjectPayload {
        selector: ProjectSelector!
        deletedProject: Project!
    }

    type Project {
        id: ID!
        cleanId: ID!
        name: String!
        type: ProjectType!
        buildUrl: String
        validationUrl: String
    }

    enum ProjectType {
        FEDERATION
        STITCHING
        SINGLE
    }
";

fn canonical_text(document: &Document) -> String {
    graphql_parser::minify_query(print(document).unwrap()).unwrap()
}

fn schema() -> Schema {
    to_schema(&graphql_parser::parse_schema::<String>(SCHEMA_SDL).unwrap())
}

fn process(processor: &mut OperationProcessor, query: &str) -> Result<Option<ProcessedOperation>, String> {
    processor.process(query, &schema(), &parse, &print)
}

const SAMPLE: &str = "query getProjects($limit: Int = 5, $type: ProjectType!) {
    projects(filter: { pagination: { limit: $limit }, type: $type }, and: [{ type: FEDERATION }]) {
        name
        identifier: id
        ... on Project { cleanId }
        ...Extra @include(if: true)
    }
    projectsByType(type: STITCHING) { id }
}
fragment Extra on Project { type buildUrl }";

const SAMPLE_CANONICAL: &str = "query getProjects($limit:Int=0$type:ProjectType!){projects(and:[{type:FEDERATION}]filter:{pagination:{limit:$limit}type:$type}){...Extra@include(if:true)...on Project{cleanId}id name}projectsByType(type:STITCHING){id}}fragment Extra on Project{buildUrl type}";

fn record(body: &str, name: Option<&str>, client: Option<&str>, version: Option<&str>) -> ExecutionReport {
    ExecutionReport {
        client_name: client.map(|s| s.to_string()),
        client_version: version.map(|s| s.to_string()),
        timestamp: 1_700_000_000_000,
        duration: 1_500_000,
        ok: true,
        errors: 0,
        operation_body: body.to_string(),
        operation_name: name.map(|s| s.to_string()),
    }
}

fn agent(buffer_size: usize) -> UsageAgent {
    UsageAgent::new(schema(), "token".to_string(), "http://localhost/usage".to_string(), buffer_size)
}

#[test]
fn canonical_text_of_an_operation() {
    let mut processor = OperationProcessor::new();
    let p = process(&mut processor, SAMPLE).unwrap().unwrap();
    assert_eq!(p.operation, SAMPLE_CANONICAL);
}

#[test]
fn fingerprint_is_the_md5_of_the_canonical_text() {
    let mut processor = OperationProcessor::new();
    let p = process(&mut processor, SAMPLE).unwrap().unwrap();
    assert_eq!(p.hash, format!("{:x}", md5::compute(SAMPLE_CANONICAL)));
    assert_eq!(p.hash.len(), 32);
    assert_eq!(OperationProcessor::fingerprint("hello"), "5d41402abc4b2a76b9719d911017c592");
    assert_eq!(OperationProcessor::fingerprint(""), "d41d8cd98f00b204e9800998ecf8427e");
}

#[test]
fn coordinates_of_a_processed_operation() {
    let mut processor = OperationProcessor::new();
    let p = process(&mut processor, "{ projectsByTypes(types: [FEDERATION, STITCHING]) { name } }")
        .unwrap()
        .unwrap();
    let found: HashSet<String> = p.coordinates.iter().cloned().collect();
    let expected: HashSet<String> = vec![
        "Query.projectsByTypes",
        "Query.projectsByTypes.types",
        "Project.name",
        "ProjectType.FEDERATION",
        "ProjectType.STITCHING",
    ]
    .into_iter()
    .map(|s| s.to_string())
    .collect();
    assert_eq!(found, expected);
    assert_eq!(p.coordinates.len(), found.len());
}

#[test]
fn introspection_is_dropped() {
    let mut processor = OperationProcessor::new();
    assert_eq!(process(&mut processor, "{ __schema { types { name } } }"), Ok(None));
    assert_eq!(process(&mut processor, "query Q { __type(name: \"Project\") { name } }"), Ok(None));
    assert_eq!(
        process(&mut processor, "query Q { projectsByType(type: SINGLE) { id } __schema { types { name } } }"),
        Ok(None)
    );
}

#[test]
fn introspection_below_the_top_level_is_not_detected() {
    let mut processor = OperationProcessor::new();
    let result = process(&mut processor, "query Q { ...F } fragment F on Query { __schema { types { name } } }");
    assert!(!matches!(result, Ok(None)));
}

#[test]
fn literals_do_not_matter() {
    let mut processor = OperationProcessor::new();
    let a = process(
        &mut processor,
        "query Q { projects(filter: { pagination: { limit: 20, offset: 7 } }) { id } }",
    )
    .unwrap()
    .unwrap();
    let b = process(
        &mut processor,
        "query Q { projects(filter: { pagination: { limit: 1, offset: 300 } }) { id } }",
    )
    .unwrap()
    .unwrap();
    assert_eq!(a.operation, b.operation);
    assert_eq!(a.hash, b.hash);
    let ca: HashSet<String> = a.coordinates.into_iter().collect();
    let cb: HashSet<String> = b.coordinates.into_iter().collect();
    assert_eq!(ca, cb);
    assert_eq!(a.operation, "query Q{projects(filter:{pagination:{limit:0 offset:0}}){id}}");
}

#[test]
fn string_and_float_literals_are_stripped() {
    let document = parse("{ f(a: \"text\", b: 1.5, c: true, d: null, e: E, g: [2, \"x\"]) }").unwrap();
    let canonical = normalize_document(&document);
    assert_eq!(canonical_text(&canonical), "{f(a:\"\" b:0 c:true d:null e:E g:[0 \"\"])}");
}

#[test]
fn aliases_do_not_matter() {
    let mut processor = OperationProcessor::new();
    let a = process(&mut processor, "{ projectsByType(type: SINGLE) { first: id second: name } }").unwrap();
    let b = process(&mut processor, "{ projectsByType(type: SINGLE) { id name } }").unwrap();
    assert_eq!(a, b);
}

#[test]
fn the_order_of_selections_and_arguments_does_not_matter() {
    let mut processor = OperationProcessor::new();
    let a = process(&mut processor, "query Q($a: Int, $b: Int) { projects(filter: null, and: null) { name id } }")
        .unwrap()
        .unwrap();
    let b = process(&mut processor, "query Q($b: Int, $a: Int) { projects(and: null, filter: null) { id name } }")
        .unwrap()
        .unwrap();
    assert_eq!(a.operation, b.operation);
    assert_eq!(a.hash, b.hash);
}

#[test]
fn operations_keep_their_order_and_come_before_fragments() {
    let document = parse("fragment B on Project { id } query Z { a } fragment A on Project { id } query Y { b }")
        .unwrap();
    let canonical = normalize_document(&document);
    assert_eq!(
        canonical_text(&canonical),
        "query Z{a}query Y{b}fragment A on Project{id}fragment B on Project{id}"
    );
}

#[test]
fn inline_fragments_keep_their_order() {
    let document = parse("{ x ... on B { b } ...S ... on A { a } ...R }").unwrap();
    let canonical = normalize_document(&document);
    assert_eq!(canonical_text(&canonical), "{...R...S...on B{b}...on A{a}x}");
}

#[test]
fn canonicalization_is_a_fixed_point() {
    let document = parse(SAMPLE).unwrap();
    let once = normalize_document(&document);
    let twice = normalize_document(&once);
    assert_eq!(once, twice);
    assert_ne!(once, document);
}

#[test]
fn processing_is_repeatable() {
    let mut processor = OperationProcessor::new();
    let first = process(&mut processor, SAMPLE);
    let second = process(&mut processor, SAMPLE);
    let mut other = OperationProcessor::new();
    let third = process(&mut other, SAMPLE);
    assert_eq!(first, second);
    assert_eq!(first, third);
    assert!(first.unwrap().is_some());
}

#[test]
fn a_remembered_result_is_returned_without_parsing() {
    let parsed = std::cell::Cell::new(0usize);
    let counting = |text: &str| -> Result<Document, String> {
        parsed.set(parsed.get() + 1);
        parse(text)
    };
    let mut processor = OperationProcessor::new();
    let first = processor.process(SAMPLE, &schema(), &counting, &print).unwrap();
    let second = processor.process(SAMPLE, &schema(), &counting, &print).unwrap();
    assert_eq!(first, second);
    assert_eq!(parsed.get(), 1);
    assert_eq!(processor.process("{ __schema { types { name } } }", &schema(), &counting, &print), Ok(None));
    assert_eq!(processor.process("{ __schema { types { name } } }", &schema(), &counting, &print), Ok(None));
    assert_eq!(parsed.get(), 2);
    assert!(processor.process("query {", &schema(), &counting, &print).is_err());
    assert!(processor.process("query {", &schema(), &counting, &print).is_err());
    assert_eq!(parsed.get(), 4);
}

#[test]
fn a_parse_failure_is_an_error_and_is_not_remembered() {
    let mut processor = OperationProcessor::new();
    assert!(process(&mut processor, "query {").is_err());
    assert_eq!(processor.lookup("query {"), None);
}

#[test]
fn a_field_without_a_parent_type_is_an_error() {
    let mut processor = OperationProcessor::new();
    assert_eq!(
        process(&mut processor, "{ nothing { here } }"),
        Err("Unable to find parent type of 'here' field".to_string())
    );
    assert_eq!(
        process(&mut processor, "subscription { changed }"),
        Err("Unable to find parent type of 'changed' field".to_string())
    );
}

#[test]
fn an_argument_without_a_parent_type_is_an_error() {
    let mut processor = OperationProcessor::new();
    assert_eq!(
        process(&mut processor, "query Q @live(if: true) { projectsByType(type: SINGLE) { id } }"),
        Err("Unable to find parent type of 'if' argument".to_string())
    );
}

#[test]
fn a_print_failure_is_an_error() {
    let mut processor = OperationProcessor::new();
    let no_print = |_: &Document| -> Result<String, String> { Err("not printed".to_string()) };
    assert_eq!(
        processor.process("{ projectsByType(type: SINGLE) { id } }", &schema(), &parse, &no_print),
        Err("not printed".to_string())
    );
    assert_eq!(processor.lookup("{ projectsByType(type: SINGLE) { id } }"), None);
}

#[test]
fn a_scalar_argument_brings_the_name_of_its_type() {
    let schema = to_schema(
        &graphql_parser::parse_schema::<String>("type Query { item(id: ID!, first: Int): String }").unwrap(),
    );
    let document = parse("{ item(id: \"a\", first: 3) }").unwrap();
    let found: HashSet<String> = hive_core::coordinates::collect_schema_coordinates(&document, &schema)
        .unwrap()
        .into_iter()
        .collect();
    let expected: HashSet<String> = vec!["Query.item", "Query.item.id", "Query.item.first", "ID", "Int"]
        .into_iter()
        .map(|s| s.to_string())
        .collect();
    assert_eq!(found, expected);
}

#[test]
fn input_types_are_followed_through_cycles() {
    let schema = to_schema(
        &graphql_parser::parse_schema::<String>(
            "type Query { find(where: Node): String }
             input Node { value: Int next: Node other: Leaf }
             input Leaf { back: Node label: String }",
        )
        .unwrap(),
    );
    let document = parse("query Q($w: Node) { find(where: $w) }").unwrap();
    let found: HashSet<String> = hive_core::coordinates::collect_schema_coordinates(&document, &schema)
        .unwrap()
        .into_iter()
        .collect();
    let expected: HashSet<String> = vec![
        "Query.find",
        "Query.find.where",
        "Node.value",
        "Node.next",
        "Node.other",
        "Leaf.back",
        "Leaf.label",
        "Int",
        "String",
    ]
    .into_iter()
    .map(|s| s.to_string())
    .collect();
    assert_eq!(found, expected);
}

#[test]
fn a_custom_root_type_is_used() {
    let schema = to_schema(
        &graphql_parser::parse_schema::<String>("schema { query: Root } type Root { ping: String }").unwrap(),
    );
    let document = parse("{ ping }").unwrap();
    assert_eq!(
        hive_core::coordinates::collect_schema_coordinates(&document, &schema),
        Ok(vec!["Root.ping".to_string()])
    );
}

#[test]
fn a_flush_reports_the_buffered_records() {
    let mut agent = agent(10);
    assert!(!agent.add_report(record(SAMPLE, Some("getProjects"), Some("web"), Some("1.0"))));
    assert!(!agent.add_report(record("{ __schema { types { name } } }", None, None, None)));
    assert!(!agent.add_report(record("query {", Some("broken"), None, None)));
    assert!(!agent.add_report(record(SAMPLE, Some(""), Some(""), Some(""))));
    assert!(!agent.add_report(record("{ projectsByType(type: SINGLE) { id } }", None, Some("cli"), None)));
    let report = agent.flush(&parse, &print).unwrap();
    assert_eq!(report.size, 3);
    assert_eq!(report.operations.len(), 3);
    assert_eq!(report.map.len(), 2);
    let sample_hash = format!("{:x}", md5::compute(SAMPLE_CANONICAL));
    assert_eq!(report.operations[0].operation_map_key, sample_hash);
    assert_eq!(report.operations[1].operation_map_key, sample_hash);
    assert_eq!(report.map[0].key, sample_hash);
    assert_eq!(report.map[0].record.operation, SAMPLE_CANONICAL);
    assert_eq!(report.map[0].record.operation_name, Some("getProjects".to_string()));
    assert_eq!(report.operations[0].client.name, Some("web".to_string()));
    assert_eq!(report.operations[0].client.version, Some("1.0".to_string()));
    assert_eq!(report.operations[1].client.name, None);
    assert_eq!(report.operations[1].client.version, None);
    assert_eq!(report.operations[2].client.name, Some("cli".to_string()));
    assert_eq!(report.operations[0].timestamp, 1_700_000_000_000);
    assert_eq!(report.operations[0].execution.duration, 1_500_000);
    for op in &report.operations {
        assert!(report.map.iter().any(|e| e.key == op.operation_map_key));
    }
    assert!(agent.flush(&parse, &print).is_none());
}

#[test]
fn introspection_records_leave_no_trace_in_a_report() {
    let mut agent = agent(10);
    agent.add_report(record("{ __schema { types { name } } }", None, None, None));
    agent.add_report(record("{ __type(name: \"Project\") { name } }", None, None, None));
    let report = agent.flush(&parse, &print).unwrap();
    assert_eq!(report.size, 0);
    assert!(report.operations.is_empty());
    assert!(report.map.is_empty());
}

#[test]
fn directive_arguments_are_recorded_under_the_field_they_stand_in() {
    let document = parse("{ projectsByType(type: SINGLE) { id @include(if: true) } }").unwrap();
    let found: HashSet<String> = hive_core::coordinates::collect_schema_coordinates(&document, &schema())
        .unwrap()
        .into_iter()
        .collect();
    let expected: HashSet<String> = vec![
        "Query.projectsByType",
        "Query.projectsByType.type",
        "ProjectType.SINGLE",
        "Project.id",
        "Project.id.if",
    ]
    .into_iter()
    .map(|s| s.to_string())
    .collect();
    assert_eq!(found, expected);
}

#[test]
fn documents_that_differ_in_literals_have_one_canonical_form() {
    let a = parse("query Q($n: Int = 1) { projects(filter: { pagination: { limit: 2 } }) @tag(v: \"a\", w: 1.5) { id } }")
        .unwrap();
    let b = parse("query Q($n: Int = 9) { projects(filter: { pagination: { limit: 8 } }) @tag(v: \"b\", w: 2.5) { id } }")
        .unwrap();
    assert_ne!(a, b);
    assert_eq!(normalize_document(&a), normalize_document(&b));
    let ca: HashSet<String> =
        hive_core::coordinates::collect_schema_coordinates(&a, &schema()).unwrap().into_iter().collect();
    let cb: HashSet<String> =
        hive_core::coordinates::collect_schema_coordinates(&b, &schema()).unwrap().into_iter().collect();
    assert_eq!(ca, cb);
}

#[test]
fn a_text_that_cannot_be_minified_is_an_error() {
    let mut processor = OperationProcessor::new();
    let garbled = |_: &Document| -> Result<String, String> { Ok("{ a(b: \"unterminated) }".to_string()) };
    let result = processor.process("{ projectsByType(type: SINGLE) { id } }", &schema(), &parse, &garbled);
    assert!(result.is_err());
    assert_eq!(processor.lookup("{ projectsByType(type: SINGLE) { id } }"), None);
}

#[test]
fn the_reported_text_has_no_insignificant_characters() {
    let mut processor = OperationProcessor::new();
    let spaced = |_: &Document| -> Result<String, String> {
        Ok("query   Q ( $a : Int ) {\n  # a comment\n  b ( c : $a , d : [ 1 , 2 ] ) ,\n  e\n}\n".to_string())
    };
    let p = processor
        .process("{ projectsByType(type: SINGLE) { id } }", &schema(), &parse, &spaced)
        .unwrap()
        .unwrap();
    assert_eq!(p.operation, "query Q($a:Int){b(c:$a d:[1 2])e}");
    assert_eq!(p.hash, format!("{:x}", md5::compute("query Q($a:Int){b(c:$a d:[1 2])e}")));
}

#[test]
fn nothing_is_reported_at_a_sample_rate_of_zero() {
    let mut config = hive_core::usage::UsageConfig::new("token".to_string(), None);
    config.sample_rate = 0.0f64.to_bits();
    let reporter = hive_core::usage::UsageReporter::new(config);
    let mut agent = agent(1000);
    for i in 0..1000u64 {
        let public = hive_core::context::GraphQLHiveContext::new(None, None, i);
        let internal = hive_core::context::HiveInternalContext {
            operation_name: Some("getProjects".to_string()),
            operation_body: SAMPLE.to_string(),
        };
        let draw = (i as f64 / 1000.0).to_bits();
        if let Some(report) = reporter.process(public, internal, 1, 0, draw) {
            agent.add_report(report);
        }
    }
    assert!(agent.flush(&parse, &print).is_none());
}
