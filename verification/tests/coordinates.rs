use std::collections::HashSet;

use graphql_parser::parse_query;
use graphql_parser::parse_schema;
use graphql_parser::query as gq;
use graphql_parser::schema as gs;

use hive_core::ast::{
    Argument, Definition, Directive, Document, Fragment, ObjectField, Operation, OperationKind,
    Selection, Type, Value, VariableDefinition, Wrapper,
};
use hive_core::coordinates::collect_schema_coordinates;
use hive_core::schema::{
    DirectiveDefinition, FieldDefinition, InputValueDefinition, Schema, TypeDefinition, TypeKind,
};

fn to_type(t: &gq::Type<'_, String>) -> Type {
    let mut wrappers = Vec::new();
    let mut cur = t;
    loop {
        match cur {
            gq::Type::NamedType(name) => {
                return Type { name: name.clone(), wrappers };
            }
            gq::Type::ListType(inner) => {
                wrappers.push(Wrapper::List);
                cur = inner;
            }
            gq::Type::NonNullType(inner) => {
                wrappers.push(Wrapper::NonNull);
                cur = inner;
            }
        }
    }
}

fn to_value(v: &gq::Value<'_, String>) -> Value {
    match v {
        gq::Value::Variable(name) => Value::Variable(name.clone()),
        gq::Value::Int(n) => Value::Int(n.as_i64().unwrap()),
        gq::Value::Float(f) => Value::Float(f.to_bits()),
        gq::Value::String(s) => Value::String(s.clone()),
        gq::Value::Boolean(b) => Value::Boolean(*b),
        gq::Value::Null => Value::Null,
        gq::Value::Enum(name) => Value::Enum(name.clone()),
        gq::Value::List(items) => Value::List(items.iter().map(to_value).collect()),
        gq::Value::Object(fields) => Value::Object(
            fields
                .iter()
                .map(|(name, value)| ObjectField { name: name.clone(), value: to_value(value) })
                .collect(),
        ),
    }
}

fn to_arguments(arguments: &[(String, gq::Value<'_, String>)]) -> Vec<Argument> {
    arguments
        .iter()
        .map(|(name, value)| Argument { name: name.clone(), value: to_value(value) })
        .collect()
}

fn to_directives(directives: &[gq::Directive<'_, String>]) -> Vec<Directive> {
    directives
        .iter()
        .map(|d| Directive { name: d.name.clone(), arguments: to_arguments(&d.arguments) })
        .collect()
}

fn to_selections(set: &gq::SelectionSet<'_, String>) -> Vec<Selection> {
    set.items
        .iter()
        .map(|s| match s {
            gq::Selection::Field(f) => Selection::Field {
                alias: f.alias.clone(),
                name: f.name.clone(),
                arguments: to_arguments(&f.arguments),
                directives: to_directives(&f.directives),
                selection_set: to_selections(&f.selection_set),
            },
            gq::Selection::FragmentSpread(s) => Selection::FragmentSpread {
                fragment_name: s.fragment_name.clone(),
                directives: to_directives(&s.directives),
            },
            gq::Selection::InlineFragment(f) => Selection::InlineFragment {
                type_condition: f.type_condition.as_ref().map(|gq::TypeCondition::On(n)| n.clone()),
                directives: to_directives(&f.directives),
                selection_set: to_selections(&f.selection_set),
            },
        })
        .collect()
}

fn to_variables(vars: &[gq::VariableDefinition<'_, String>]) -> Vec<VariableDefinition> {
    vars.iter()
        .map(|v| VariableDefinition {
            name: v.name.clone(),
            var_type: to_type(&v.var_type),
            default_value: v.default_value.as_ref().map(to_value),
        })
        .collect()
}

fn to_document(doc: &gq::Document<'_, String>) -> Document {
    let definitions = doc
        .definitions
        .iter()
        .map(|d| match d {
            gq::Definition::Operation(gq::OperationDefinition::SelectionSet(set)) => {
                Definition::Operation(Operation {
                    kind: OperationKind::Shorthand,
                    name: None,
                    variable_definitions: Vec::new(),
                    directives: Vec::new(),
                    selection_set: to_selections(set),
                })
            }
            gq::Definition::Operation(gq::OperationDefinition::Query(q)) => {
                Definition::Operation(Operation {
                    kind: OperationKind::Query,
                    name: q.name.clone(),
                    variable_definitions: to_variables(&q.variable_definitions),
                    directives: to_directives(&q.directives),
                    selection_set: to_selections(&q.selection_set),
                })
            }
            gq::Definition::Operation(gq::OperationDefinition::Mutation(q)) => {
                Definition::Operation(Operation {
                    kind: OperationKind::Mutation,
                    name: q.name.clone(),
                    variable_definitions: to_variables(&q.variable_definitions),
                    directives: to_directives(&q.directives),
                    selection_set: to_selections(&q.selection_set),
                })
            }
            gq::Definition::Operation(gq::OperationDefinition::Subscription(q)) => {
                Definition::Operation(Operation {
                    kind: OperationKind::Subscription,
                    name: q.name.clone(),
                    variable_definitions: to_variables(&q.variable_definitions),
                    directives: to_directives(&q.directives),
                    selection_set: to_selections(&q.selection_set),
                })
            }
            gq::Definition::Fragment(f) => {
                let gq::TypeCondition::On(condition) = &f.type_condition;
                Definition::Fragment(Fragment {
                    name: f.name.clone(),
                    type_condition: condition.clone(),
                    directives: to_directives(&f.directives),
                    selection_set: to_selections(&f.selection_set),
                })
            }
        })
        .collect();
    Document { definitions }
}

fn to_input_values(values: &[gs::InputValue<'_, String>]) -> Vec<InputValueDefinition> {
    values
        .iter()
        .map(|v| InputValueDefinition { name: v.name.clone(), value_type: to_type(&v.value_type) })
        .collect()
}

fn to_fields(fields: &[gs::Field<'_, String>]) -> Vec<FieldDefinition> {
    fields
        .iter()
        .map(|f| FieldDefinition {
            name: f.name.clone(),
            field_type: to_type(&f.field_type),
            arguments: to_input_values(&f.arguments),
        })
        .collect()
}

fn plain_type(name: &str, kind: TypeKind) -> TypeDefinition {
    TypeDefinition {
        name: name.to_string(),
        kind,
        fields: Vec::new(),
        input_fields: Vec::new(),
        values: Vec::new(),
    }
}

fn to_schema(doc: &gs::Document<'_, String>) -> Schema {
    let mut schema = Schema {
        types: Vec::new(),
        directives: Vec::new(),
        query_type: None,
        mutation_type: None,
        subscription_type: None,
    };
    for definition in &doc.definitions {
        match definition {
            gs::Definition::SchemaDefinition(s) => {
                schema.query_type = schema.query_type.take().or(s.query.clone());
                schema.mutation_type = schema.mutation_type.take().or(s.mutation.clone());
                schema.subscription_type =
                    schema.subscription_type.take().or(s.subscription.clone());
            }
            gs::Definition::TypeDefinition(t) => schema.types.push(match t {
                gs::TypeDefinition::Scalar(s) => plain_type(&s.name, TypeKind::Scalar),
                gs::TypeDefinition::Union(u) => plain_type(&u.name, TypeKind::Union),
                gs::TypeDefinition::Object(o) => TypeDefinition {
                    fields: to_fields(&o.fields),
                    ..plain_type(&o.name, TypeKind::Object)
                },
                gs::TypeDefinition::Interface(i) => TypeDefinition {
                    fields: to_fields(&i.fields),
                    ..plain_type(&i.name, TypeKind::Interface)
                },
                gs::TypeDefinition::Enum(e) => TypeDefinition {
                    values: e.values.iter().map(|v| v.name.clone()).collect(),
                    ..plain_type(&e.name, TypeKind::Enum)
                },
                gs::TypeDefinition::InputObject(i) => TypeDefinition {
                    input_fields: to_input_values(&i.fields),
                    ..plain_type(&i.name, TypeKind::InputObject)
                },
            }),
            gs::Definition::TypeExtension(_) => {}
            gs::Definition::DirectiveDefinition(d) => schema.directives.push(DirectiveDefinition {
                name: d.name.clone(),
                arguments: to_input_values(&d.arguments),
            }),
        }
    }
    schema
}

const SCHEMA_SDL: &str = "
    type Query {
        project(selector: ProjectSelectorInput!): Project
        projectsByType(type: ProjectType!): [Project!]!
        projectsByTypes(types: [ProjectType!]!): [Project!]!
        projects(filter: FilterInput, and: [FilterInput!]): [Project!]!
    }

    type Mutation {
        deleteProject(selector: ProjectSelectorInput!): DeleteProjectPayload!
    }

    input ProjectSelectorInput {
        organization: ID!
        project: ID!
    }

    input FilterInput {
        type: ProjectType
        pagination: PaginationInput
        order: [ProjectOrderByInput!]
    }

    input PaginationInput {
        limit: Int
        offset: Int
    }

    input ProjectOrderByInput {
        field: String!
        direction: OrderDirection
    }

    enum OrderDirection {
        ASC
        DESC
    }

    type ProjectSelector {
        organization: ID!
        project: ID!
    }

    type DeleteProjectPayload {
        selector: ProjectSelector!
        deletedProject: Project!
    }

    type Project {
        id: ID!
        cleanId: ID!
        name: String!
        type: ProjectType!
        buildUrl: String
        validationUrl: String
    }

    enum ProjectType {
        FEDERATION
        STITCHING
        SINGLE
    }
";

#[test]
fn basic_test() {
    let schema = to_schema(&parse_schema::<String>(SCHEMA_SDL).unwrap());

    let document = parse_query::<String>(
        "
        mutation deleteProjectOperation($selector: ProjectSelectorInput!) {
            deleteProject(selector: $selector) {
                selector {
                    organization
                    project
                }
                deletedProject {
                    ...ProjectFields
                }
            }
        }
        fragment ProjectFields on Project {
            id
            cleanId
            name
            type
        }
    ",
    )
    .unwrap();

    let schema_coordinates: HashSet<String> =
        collect_schema_coordinates(&to_document(&document), &schema).unwrap().into_iter().collect();

    let expected = vec![
        "Mutation.deleteProject",
        "Mutation.deleteProject.selector",
        "DeleteProjectPayload.selector",
        "ProjectSelector.organization",
        "ProjectSelector.project",
        "DeleteProjectPayload.deletedProject",
        "ID",
        "Project.id",
        "Project.cleanId",
        "Project.name",
        "Project.type",
        "ProjectType.FEDERATION",
        "ProjectType.STITCHING",
        "ProjectType.SINGLE",
        "ProjectSelectorInput.organization",
        "ProjectSelectorInput.project",
    ]
    .into_iter()
    .map(|s| s.to_string())
    .collect::<HashSet<String>>();

    let extra: Vec<&String> = schema_coordinates.difference(&expected).collect();
    let missing: Vec<&String> = expected.difference(&schema_coordinates).collect();

    assert_eq!(extra.len(), 0, "Extra: {:?}", extra);
    assert_eq!(missing.len(), 0, "Missing: {:?}", missing);
}

#[test]
fn entire_input() {
    let schema = to_schema(&parse_schema::<String>(SCHEMA_SDL).unwrap());
    let document = parse_query::<String>(
        "
        query projects($filter: FilterInput) {
            projects(filter: $filter) {
                name
            }
        }
        ",
    )
    .unwrap();

    let schema_coordinates: HashSet<String> =
        collect_schema_coordinates(&to_document(&document), &schema).unwrap().into_iter().collect();

    let expected = vec![
        "Query.projects",
        "Query.projects.filter",
        "Project.name",
        "FilterInput.type",
        "ProjectType.FEDERATION",
        "ProjectType.STITCHING",
        "ProjectType.SINGLE",
        "FilterInput.pagination",
        "PaginationInput.limit",
        "Int",
        "PaginationInput.offset",
        "FilterInput.order",
        "ProjectOrderByInput.field",
        "String",
        "ProjectOrderByInput.direction",
        "OrderDirection.ASC",
        "OrderDirection.DESC",
    ]
    .into_iter()
    .map(|s| s.to_string())
    .collect::<HashSet<String>>();

    let extra: Vec<&String> = schema_coordinates.difference(&expected).collect();
    let missing: Vec<&String> = expected.difference(&schema_coordinates).collect();

    assert_eq!(extra.len(), 0, "Extra: {:?}", extra);
    assert_eq!(missing.len(), 0, "Missing: {:?}", missing);
}

#[test]
fn entire_input_list() {
    let schema = to_schema(&parse_schema::<String>(SCHEMA_SDL).unwrap());
    let document = parse_query::<String>(
        "
        query projects($filter: FilterInput) {
            projects(and: $filter) {
                name
            }
        }
        ",
    )
    .unwrap();

    let schema_coordinates: HashSet<String> =
        collect_schema_coordinates(&to_document(&document), &schema).unwrap().into_iter().collect();

    let expected = vec![
        "Query.projects",
        "Query.projects.and",
        "Project.name",
        "FilterInput.type",
        "ProjectType.FEDERATION",
        "ProjectType.STITCHING",
        "ProjectType.SINGLE",
        "FilterInput.pagination",
        "PaginationInput.limit",
        "Int",
        "PaginationInput.offset",
        "FilterInput.order",
        "ProjectOrderByInput.field",
        "String",
        "ProjectOrderByInput.direction",
        "OrderDirection.ASC",
        "OrderDirection.DESC",
    ]
    .into_iter()
    .map(|s| s.to_string())
    .collect::<HashSet<String>>();

    let extra: Vec<&String> = schema_coordinates.difference(&expected).collect();
    let missing: Vec<&String> = expected.difference(&schema_coordinates).collect();

    assert_eq!(extra.len(), 0, "Extra: {:?}", extra);
    assert_eq!(missing.len(), 0, "Missing: {:?}", missing);
}

#[test]
fn entire_input_and_enum_value() {
    let schema = to_schema(&parse_schema::<String>(SCHEMA_SDL).unwrap());
    let document = parse_query::<String>(
        "
        query getProjects($pagination: PaginationInput) {
            projects(and: { pagination: $pagination, type: FEDERATION }) {
            name
            }
        }
        ",
    )
    .unwrap();

    let schema_coordinates: HashSet<String> =
        collect_schema_coordinates(&to_document(&document), &schema).unwrap().into_iter().collect();

    let expected = vec![
        "Query.projects",
        "Query.projects.and",
        "Project.name",
        "PaginationInput.limit",
        "Int",
        "PaginationInput.offset",
        "FilterInput.pagination",
        "FilterInput.type",
        "ProjectType.FEDERATION",
    ]
    .into_iter()
    .map(|s| s.to_string())
    .collect::<HashSet<String>>();

    let extra: Vec<&String> = schema_coordinates.difference(&expected).collect();
    let missing: Vec<&String> = expected.difference(&schema_coordinates).collect();

    assert_eq!(extra.len(), 0, "Extra: {:?}", extra);
    assert_eq!(missing.len(), 0, "Missing: {:?}", missing);
}

#[test]
fn enum_value_list() {
    let schema = to_schema(&parse_schema::<String>(SCHEMA_SDL).unwrap());
    let document = parse_query::<String>(
        "
        query getProjects {
            projectsByTypes(types: [FEDERATION, STITCHING]) {
            name
            }
        }
        ",
    )
    .unwrap();

    let schema_coordinates: HashSet<String> =
        collect_schema_coordinates(&to_document(&document), &schema).unwrap().into_iter().collect();

    let expected = vec![
        "Query.projectsByTypes",
        "Query.projectsByTypes.types",
        "Project.name",
        "ProjectType.FEDERATION",
        "ProjectType.STITCHING",
    ]
    .into_iter()
    .map(|s| s.to_string())
    .collect::<HashSet<String>>();

    let extra: Vec<&String> = schema_coordinates.difference(&expected).collect();
    let missing: Vec<&String> = expected.difference(&schema_coordinates).collect();

    assert_eq!(extra.len(), 0, "Extra: {:?}", extra);
    assert_eq!(missing.len(), 0, "Missing: {:?}", missing);
}

#[test]
fn enums_and_scalars_input() {
    let schema = to_schema(&parse_schema::<String>(SCHEMA_SDL).unwrap());
    let document = parse_query::<String>(
        "
        query getProjects($limit: Int!, $type: ProjectType!) {
    projects(filter: { pagination: { limit: $limit }, type: $type }) {
      id
    }
  }
    ",
    )
    .unwrap();

    let schema_coordinates: HashSet<String> =
        collect_schema_coordinates(&to_document(&document), &schema).unwrap().into_iter().collect();

    let expected = vec![
        "Query.projects",
        "Query.projects.filter",
        "Project.id",
        "Int",
        "ProjectType.FEDERATION",
        "ProjectType.STITCHING",
        "ProjectType.SINGLE",
        "FilterInput.pagination",
        "FilterInput.type",
        "PaginationInput.limit",
    ]
    .into_iter()
    .map(|s| s.to_string())
    .collect::<HashSet<String>>();

    let extra: Vec<&String> = schema_coordinates.difference(&expected).collect();
    let missing: Vec<&String> = expected.difference(&schema_coordinates).collect();

    assert_eq!(extra.len(), 0, "Extra: {:?}", extra);
    assert_eq!(missing.len(), 0, "Missing: {:?}", missing);
}

#[test]
fn hard_coded_scalars_input() {
    let schema = to_schema(&parse_schema::<String>(SCHEMA_SDL).unwrap());
    let document = parse_query::<String>(
        "
        {
            projects(filter: { pagination: { limit: 20 } }) {
                id
            }
        }
    ",
    )
    .unwrap();

    let schema_coordinates: HashSet<String> =
        collect_schema_coordinates(&to_document(&document), &schema).unwrap().into_iter().collect();

    let expected = vec![
        "Query.projects",
        "Query.projects.filter",
        "Project.id",
        "FilterInput.pagination",
        "Int",
        "PaginationInput.limit",
    ]
    .into_iter()
    .map(|s| s.to_string())
    .collect::<HashSet<String>>();

    let extra: Vec<&String> = schema_coordinates.difference(&expected).collect();
    let missing: Vec<&String> = expected.difference(&schema_coordinates).collect();

    assert_eq!(extra.len(), 0, "Extra: {:?}", extra);
    assert_eq!(missing.len(), 0, "Missing: {:?}", missing);
}

#[test]
fn enum_values_object_field() {
    let schema = to_schema(&parse_schema::<String>(SCHEMA_SDL).unwrap());
    let document = parse_query::<String>(
        "
        query getProjects($limit: Int!) {
            projects(filter: { pagination: { limit: $limit }, type: FEDERATION }) {
                id
            }
        }
        ",
    )
    .unwrap();

    let schema_coordinates: HashSet<String> =
        collect_schema_coordinates(&to_document(&document), &schema).unwrap().into_iter().collect();

    let expected = vec![
        "Query.projects",
        "Query.projects.filter",
        "Project.id",
        "Int",
        "FilterInput.pagination",
        "FilterInput.type",
        "PaginationInput.limit",
        "ProjectType.FEDERATION",
    ]
    .into_iter()
    .map(|s| s.to_string())
    .collect::<HashSet<String>>();

    let extra: Vec<&String> = schema_coordinates.difference(&expected).collect();
    let missing: Vec<&String> = expected.difference(&schema_coordinates).collect();

    assert_eq!(extra.len(), 0, "Extra: {:?}", extra);
    assert_eq!(missing.len(), 0, "Missing: {:?}", missing);
}

#[test]
fn enum_list_inline() {
    let schema = to_schema(&parse_schema::<String>(SCHEMA_SDL).unwrap());
    let document = parse_query::<String>(
        "
        query getProjects {
            projectsByTypes(types: [FEDERATION]) {
                id
            }
        }
        ",
    )
    .unwrap();

    let schema_coordinates: HashSet<String> =
        collect_schema_coordinates(&to_document(&document), &schema).unwrap().into_iter().collect();

    let expected = vec![
        "Query.projectsByTypes",
        "Query.projectsByTypes.types",
        "Project.id",
        "ProjectType.FEDERATION",
    ]
    .into_iter()
    .map(|s| s.to_string())
    .collect::<HashSet<String>>();

    let extra: Vec<&String> = schema_coordinates.difference(&expected).collect();
    let missing: Vec<&String> = expected.difference(&schema_coordinates).collect();

    assert_eq!(extra.len(), 0, "Extra: {:?}", extra);
    assert_eq!(missing.len(), 0, "Missing: {:?}", missing);
}

#[test]
fn enum_list_variable() {
    let schema = to_schema(&parse_schema::<String>(SCHEMA_SDL).unwrap());
    let document_inline = parse_query::<String>(
        "
        query getProjects($types: [ProjectType!]!) {
            projectsByTypes(types: $types) {
                id
            }
        }
        ",
    )
    .unwrap();

    let schema_coordinates: HashSet<String> =
        collect_schema_coordinates(&to_document(&document_inline), &schema).unwrap().into_iter().collect();

    let expected = vec![
        "Query.projectsByTypes",
        "Query.projectsByTypes.types",
        "Project.id",
        "ProjectType.FEDERATION",
        "ProjectType.STITCHING",
        "ProjectType.SINGLE",
    ]
    .into_iter()
    .map(|s| s.to_string())
    .collect::<HashSet<String>>();

    let extra: Vec<&String> = schema_coordinates.difference(&expected).collect();
    let missing: Vec<&String> = expected.difference(&schema_coordinates).collect();

    assert_eq!(extra.len(), 0, "Extra: {:?}", extra);
    assert_eq!(missing.len(), 0, "Missing: {:?}", missing);
}

#[test]
fn enum_values_argument() {
    let schema = to_schema(&parse_schema::<String>(SCHEMA_SDL).unwrap());
    let document = parse_query::<String>(
        "
        query getProjects {
            projectsByType(type: FEDERATION) {
                id
            }
        }
        ",
    )
    .unwrap();

    let schema_coordinates: HashSet<String> =
        collect_schema_coordinates(&to_document(&document), &schema).unwrap().into_iter().collect();

    let expected = vec![
        "Query.projectsByType",
        "Query.projectsByType.type",
        "Project.id",
        "ProjectType.FEDERATION",
    ]
    .into_iter()
    .map(|s| s.to_string())
    .collect::<HashSet<String>>();

    let extra: Vec<&String> = schema_coordinates.difference(&expected).collect();
    let missing: Vec<&String> = expected.difference(&schema_coordinates).collect();

    assert_eq!(extra.len(), 0, "Extra: {:?}", extra);
    assert_eq!(missing.len(), 0, "Missing: {:?}", missing);
}

#[test]
fn arguments() {
    let schema = to_schema(&parse_schema::<String>(SCHEMA_SDL).unwrap());
    let document = parse_query::<String>(
        "
        query getProjects($limit: Int!, $type: ProjectType!) {
            projects(filter: { pagination: { limit: $limit }, type: $type }) {
            id
            }
        }
        ",
    )
    .unwrap();

    let schema_coordinates: HashSet<String> =
        collect_schema_coordinates(&to_document(&document), &schema).unwrap().into_iter().collect();

    let expected = vec![
        "Query.projects",
        "Query.projects.filter",
        "Project.id",
        "Int",
        "ProjectType.FEDERATION",
        "ProjectType.STITCHING",
        "ProjectType.SINGLE",
        "FilterInput.pagination",
        "FilterInput.type",
        "PaginationInput.limit",
    ]
    .into_iter()
    .map(|s| s.to_string())
    .collect::<HashSet<String>>();

    let extra: Vec<&String> = schema_coordinates.difference(&expected).collect();
    let missing: Vec<&String> = expected.difference(&schema_coordinates).collect();

    assert_eq!(extra.len(), 0, "Extra: {:?}", extra);
    assert_eq!(missing.len(), 0, "Missing: {:?}", missing);
}

#[test]
fn skips_argument_directives() {
    let schema = to_schema(&parse_schema::<String>(SCHEMA_SDL).unwrap());
    let document = parse_query::<String>(
        "
        query getProjects($limit: Int!, $type: ProjectType!, $includeName: Boolean!) {
            projects(filter: { pagination: { limit: $limit }, type: $type }) {
            id
            ...NestedFragment
            }
        }

        fragment NestedFragment on Project {
            ...IncludeNameFragment @include(if: $includeName)
        }

        fragment IncludeNameFragment on Project {
            name
        }
        ",
    )
    .unwrap();

    let schema_coordinates: HashSet<String> =
        collect_schema_coordinates(&to_document(&document), &schema).unwrap().into_iter().collect();

    let expected = vec![
        "Query.projects",
        "Query.projects.filter",
        "Project.id",
        "Project.name",
        "Int",
        "ProjectType.FEDERATION",
        "ProjectType.STITCHING",
        "ProjectType.SINGLE",
        "Boolean",
        "FilterInput.pagination",
        "FilterInput.type",
        "PaginationInput.limit",
    ]
    .into_iter()
    .map(|s| s.to_string())
    .collect::<HashSet<String>>();

    let extra: Vec<&String> = schema_coordinates.difference(&expected).collect();
    let missing: Vec<&String> = expected.difference(&schema_coordinates).collect();

    assert_eq!(extra.len(), 0, "Extra: {:?}", extra);
    assert_eq!(missing.len(), 0, "Missing: {:?}", missing);
}

#[test]
fn used_only_input_fields() {
    let schema = to_schema(&parse_schema::<String>(SCHEMA_SDL).unwrap());
    let document = parse_query::<String>(
        "
        query getProjects($limit: Int!, $type: ProjectType!) {
            projects(filter: {
                pagination: { limit: $limit },
                type: $type
            }) {
                id
            }
        }
        ",
    )
    .unwrap();

    let schema_coordinates: HashSet<String> =
        collect_schema_coordinates(&to_document(&document), &schema).unwrap().into_iter().collect();

    let expected = vec![
        "Query.projects",
        "Query.projects.filter",
        "Project.id",
        "Int",
        "ProjectType.FEDERATION",
        "ProjectType.STITCHING",
        "ProjectType.SINGLE",
        "FilterInput.pagination",
        "FilterInput.type",
        "PaginationInput.limit",
    ]
    .into_iter()
    .map(|s| s.to_string())
    .collect::<HashSet<String>>();

    let extra: Vec<&String> = schema_coordinates.difference(&expected).collect();
    let missing: Vec<&String> = expected.difference(&schema_coordinates).collect();

    assert_eq!(extra.len(), 0, "Extra: {:?}", extra);
    assert_eq!(missing.len(), 0, "Missing: {:?}", missing);
}

#[test]
fn input_object_mixed() {
    let schema = to_schema(&parse_schema::<String>(SCHEMA_SDL).unwrap());
    let document = parse_query::<String>(
        "
        query getProjects($pagination: PaginationInput!, $type: ProjectType!) {
            projects(filter: { pagination: $pagination, type: $type }) {
                id
            }
        }
        ",
    )
    .unwrap();

    let schema_coordinates: HashSet<String> =
        collect_schema_coordinates(&to_document(&document), &schema).unwrap().into_iter().collect();

    let expected = vec![
        "Query.projects",
        "Query.projects.filter",
        "Project.id",
        "PaginationInput.limit",
        "Int",
        "PaginationInput.offset",
        "ProjectType.FEDERATION",
        "ProjectType.STITCHING",
        "ProjectType.SINGLE",
        "FilterInput.pagination",
        "FilterInput.type",
    ]
    .into_iter()
    .map(|s| s.to_string())
    .collect::<HashSet<String>>();

    let extra: Vec<&String> = schema_coordinates.difference(&expected).collect();
    let missing: Vec<&String> = expected.difference(&schema_coordinates).collect();

    assert_eq!(extra.len(), 0, "Extra: {:?}", extra);
    assert_eq!(missing.len(), 0, "Missing: {:?}", missing);
}
