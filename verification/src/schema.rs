//! The part of a GraphQL schema that the coordinate walk reads: the type
//! table with fields, input fields and enum values, the directive table and
//! the names of the root operation types.

use vstd::prelude::*;
use crate::ast::{OperationKind, Type, TypeView};
use crate::text::{opt_view, owned, views};

verus! {

/// The kind of a type definition.
#[derive(Clone, Copy, Debug, PartialEq, Eq, Structural)]
pub enum TypeKind {
    Scalar,
    Object,
    Interface,
    Union,
    Enum,
    InputObject,
}

/// An argument of a field or directive, or a field of an input object.
#[derive(Debug, PartialEq, Eq)]
pub struct InputValueDefinition {
    pub name: String,
    pub value_type: Type,
}

/// The view of an input value definition.
pub struct InputValueDefinitionView {
    pub name: Seq<char>,
    pub value_type: TypeView,
}

impl View for InputValueDefinition {
    type V = InputValueDefinitionView;

    open spec fn view(&self) -> InputValueDefinitionView {
        InputValueDefinitionView { name: self.name@, value_type: self.value_type@ }
    }
}

/// A field of an object or interface type.
#[derive(Debug, PartialEq, Eq)]
pub struct FieldDefinition {
    pub name: String,
    pub field_type: Type,
    pub arguments: Vec<InputValueDefinition>,
}

/// The view of a field definition.
pub struct FieldDefinitionView {
    pub name: Seq<char>,
    pub field_type: TypeView,
    pub arguments: Seq<InputValueDefinitionView>,
}

impl View for FieldDefinition {
    type V = FieldDefinitionView;

    open spec fn view(&self) -> FieldDefinitionView {
        FieldDefinitionView {
            name: self.name@,
            field_type: self.field_type@,
            arguments: views(self.arguments@),
        }
    }
}

/// A named type of the schema. `fields` is read for object and interface
/// types, `input_fields` for input objects and `values` for enums.
#[derive(Debug, PartialEq, Eq)]
pub struct TypeDefinition {
    pub name: String,
    pub kind: TypeKind,
    pub fields: Vec<FieldDefinition>,
    pub input_fields: Vec<InputValueDefinition>,
    pub values: Vec<String>,
}

/// The view of a type definition.
pub struct TypeDefinitionView {
    pub name: Seq<char>,
    pub kind: TypeKind,
    pub fields: Seq<FieldDefinitionView>,
    pub input_fields: Seq<InputValueDefinitionView>,
    pub values: Seq<Seq<char>>,
}

impl View for TypeDefinition {
    type V = TypeDefinitionView;

    open spec fn view(&self) -> TypeDefinitionView {
        TypeDefinitionView {
            name: self.name@,
            kind: self.kind,
            fields: views(self.fields@),
            input_fields: views(self.input_fields@),
            values: views(self.values@),
        }
    }
}

/// A directive declared by the schema.
#[derive(Debug, PartialEq, Eq)]
pub struct DirectiveDefinition {
    pub name: String,
    pub arguments: Vec<InputValueDefinition>,
}

/// The view of a directive definition.
pub struct DirectiveDefinitionView {
    pub name: Seq<char>,
    pub arguments: Seq<InputValueDefinitionView>,
}

impl View for DirectiveDefinition {
    type V = DirectiveDefinitionView;

    open spec fn view(&self) -> DirectiveDefinitionView {
        DirectiveDefinitionView { name: self.name@, arguments: views(self.arguments@) }
    }
}

/// A schema. The three root names are those that the schema definition
/// states; where one is absent the conventional name is used.
#[derive(Debug, PartialEq, Eq)]
pub struct Schema {
    pub types: Vec<TypeDefinition>,
    pub directives: Vec<DirectiveDefinition>,
    pub query_type: Option<String>,
    pub mutation_type: Option<String>,
    pub subscription_type: Option<String>,
}

/// The view of a schema.
pub struct SchemaView {
    pub types: Seq<TypeDefinitionView>,
    pub directives: Seq<DirectiveDefinitionView>,
    pub query_type: Option<Seq<char>>,
    pub mutation_type: Option<Seq<char>>,
    pub subscription_type: Option<Seq<char>>,
}

impl View for Schema {
    type V = SchemaView;

    open spec fn view(&self) -> SchemaView {
        SchemaView {
            types: views(self.types@),
            directives: views(self.directives@),
            query_type: opt_view(self.query_type),
            mutation_type: opt_view(self.mutation_type),
            subscription_type: opt_view(self.subscription_type),
        }
    }
}

/// The view of an optional borrowed value.
pub open spec fn ref_view<T: View>(r: Option<&T>) -> Option<T::V> {
    match r {
        Some(t) => Some(t@),
        None => None,
    }
}

/// A borrowed result stands for the optional view `v`.
pub open spec fn found<T: View>(r: Option<&T>, v: Option<T::V>) -> bool {
    match r {
        Some(t) => v == Some(t@),
        None => v is None,
    }
}

/// The first input value named `name` at or after position `from`.
pub open spec fn input_value_from(
    defs: Seq<InputValueDefinitionView>,
    name: Seq<char>,
    from: int,
) -> Option<InputValueDefinitionView>
    decreases defs.len() - from,
{
    if from < 0 || from >= defs.len() {
        None
    } else if defs[from].name == name {
        Some(defs[from])
    } else {
        input_value_from(defs, name, from + 1)
    }
}

/// The first input value named `name`.
pub open spec fn input_value_by_name(
    defs: Seq<InputValueDefinitionView>,
    name: Seq<char>,
) -> Option<InputValueDefinitionView> {
    input_value_from(defs, name, 0)
}

/// The first field named `name` at or after position `from`.
pub open spec fn field_from(fields: Seq<FieldDefinitionView>, name: Seq<char>, from: int) -> Option<
    FieldDefinitionView,
>
    decreases fields.len() - from,
{
    if from < 0 || from >= fields.len() {
        None
    } else if fields[from].name == name {
        Some(fields[from])
    } else {
        field_from(fields, name, from + 1)
    }
}

/// The first type named `name` at or after position `from`.
pub open spec fn type_from(types: Seq<TypeDefinitionView>, name: Seq<char>, from: int) -> Option<
    TypeDefinitionView,
>
    decreases types.len() - from,
{
    if from < 0 || from >= types.len() {
        None
    } else if types[from].name == name {
        Some(types[from])
    } else {
        type_from(types, name, from + 1)
    }
}

/// The first directive named `name` at or after position `from`.
pub open spec fn directive_from(
    directives: Seq<DirectiveDefinitionView>,
    name: Seq<char>,
    from: int,
) -> Option<DirectiveDefinitionView>
    decreases directives.len() - from,
{
    if from < 0 || from >= directives.len() {
        None
    } else if directives[from].name == name {
        Some(directives[from])
    } else {
        directive_from(directives, name, from + 1)
    }
}

impl TypeDefinitionView {
    /// The field `name` of an object or interface type.
    pub open spec fn field_by_name(self, name: Seq<char>) -> Option<FieldDefinitionView> {
        if self.kind == TypeKind::Object || self.kind == TypeKind::Interface {
            field_from(self.fields, name, 0)
        } else {
            None
        }
    }

    /// The field `name` of an input object type.
    pub open spec fn input_field_by_name(self, name: Seq<char>) -> Option<
        InputValueDefinitionView,
    > {
        if self.kind == TypeKind::InputObject {
            input_value_from(self.input_fields, name, 0)
        } else {
            None
        }
    }
}

impl SchemaView {
    /// The first type definition named `name`.
    pub open spec fn type_by_name(self, name: Seq<char>) -> Option<TypeDefinitionView> {
        type_from(self.types, name, 0)
    }

    /// The first directive definition named `name`.
    pub open spec fn directive_by_name(self, name: Seq<char>) -> Option<DirectiveDefinitionView> {
        directive_from(self.directives, name, 0)
    }

    /// The type that a type reference resolves to, if any.
    pub open spec fn resolve(self, t: Option<TypeView>) -> Option<TypeDefinitionView> {
        match t {
            Some(t) => self.type_by_name(t.name),
            None => None,
        }
    }

    /// The name of the root type of an operation kind: the one the schema
    /// definition states, else `Query`, `Mutation` or `Subscription`.
    pub open spec fn root_name(self, kind: OperationKind) -> Seq<char> {
        match kind {
            OperationKind::Shorthand | OperationKind::Query => match self.query_type {
                Some(n) => n,
                None => "Query"@,
            },
            OperationKind::Mutation => match self.mutation_type {
                Some(n) => n,
                None => "Mutation"@,
            },
            OperationKind::Subscription => match self.subscription_type {
                Some(n) => n,
                None => "Subscription"@,
            },
        }
    }

    /// The root type of an operation kind: the type of that name, provided
    /// it is an object type.
    pub open spec fn root_type(self, kind: OperationKind) -> Option<TypeDefinitionView> {
        match self.type_by_name(self.root_name(kind)) {
            Some(t) => if t.kind == TypeKind::Object {
                Some(t)
            } else {
                None
            },
            None => None,
        }
    }
}

/// The first input value named `name` among `defs`.
pub fn find_input_value<'a>(defs: &'a Vec<InputValueDefinition>, name: &String) -> (r: Option<
    &'a InputValueDefinition,
>)
    ensures
        found(r, input_value_by_name(views(defs@), name@)),
{
    let mut i: usize = 0;
    while i < defs.len()
        invariant
            i <= defs.len(),
            input_value_from(views(defs@), name@, i as int) == input_value_from(
                views(defs@),
                name@,
                0,
            ),
        decreases defs.len() - i,
    {
        if defs[i].name == *name {
            return Some(&defs[i]);
        }
        i += 1;
    }
    None
}

impl TypeDefinition {
    /// The field `name` of an object or interface type.
    pub fn field_by_name(&self, name: &String) -> (r: Option<&FieldDefinition>)
        ensures
            found(r, self@.field_by_name(name@)),
    {
        match self.kind {
            TypeKind::Object | TypeKind::Interface => {},
            _ => {
                return None;
            },
        }
        let mut i: usize = 0;
        while i < self.fields.len()
            invariant
                i <= self.fields.len(),
                self.kind == TypeKind::Object || self.kind == TypeKind::Interface,
                field_from(views(self.fields@), name@, i as int) == field_from(
                    views(self.fields@),
                    name@,
                    0,
                ),
            decreases self.fields.len() - i,
        {
            if self.fields[i].name == *name {
                return Some(&self.fields[i]);
            }
            i += 1;
        }
        None
    }

    /// The field `name` of an input object type.
    pub fn input_field_by_name(&self, name: &String) -> (r: Option<&InputValueDefinition>)
        ensures
            found(r, self@.input_field_by_name(name@)),
    {
        match self.kind {
            TypeKind::InputObject => find_input_value(&self.input_fields, name),
            _ => None,
        }
    }
}

impl Schema {
    /// The first type definition named `name`.
    pub fn type_by_name(&self, name: &String) -> (r: Option<&TypeDefinition>)
        ensures
            found(r, self@.type_by_name(name@)),
    {
        let mut i: usize = 0;
        while i < self.types.len()
            invariant
                i <= self.types.len(),
                type_from(views(self.types@), name@, i as int) == type_from(
                    views(self.types@),
                    name@,
                    0,
                ),
            decreases self.types.len() - i,
        {
            if self.types[i].name == *name {
                return Some(&self.types[i]);
            }
            i += 1;
        }
        None
    }

    /// The first directive definition named `name`.
    pub fn directive_by_name(&self, name: &String) -> (r: Option<&DirectiveDefinition>)
        ensures
            found(r, self@.directive_by_name(name@)),
    {
        let mut i: usize = 0;
        while i < self.directives.len()
            invariant
                i <= self.directives.len(),
                directive_from(views(self.directives@), name@, i as int) == directive_from(
                    views(self.directives@),
                    name@,
                    0,
                ),
            decreases self.directives.len() - i,
        {
            if self.directives[i].name == *name {
                return Some(&self.directives[i]);
            }
            i += 1;
        }
        None
    }

    /// The type that a type reference resolves to, if any.
    pub fn resolve(&self, t: Option<&Type>) -> (r: Option<&TypeDefinition>)
        ensures
            found(
                r,
                self@.resolve(
                    match t {
                        Some(t) => Some(t@),
                        None => None,
                    },
                ),
            ),
    {
        match t {
            Some(t) => self.type_by_name(&t.name),
            None => None,
        }
    }

    /// The root type of an operation kind.
    pub fn root_type(&self, kind: OperationKind) -> (r: Option<&TypeDefinition>)
        ensures
            found(r, self@.root_type(kind)),
    {
        let name: String = match kind {
            OperationKind::Shorthand | OperationKind::Query => match &self.query_type {
                Some(n) => n.clone(),
                None => owned("Query"),
            },
            OperationKind::Mutation => match &self.mutation_type {
                Some(n) => n.clone(),
                None => owned("Mutation"),
            },
            OperationKind::Subscription => match &self.subscription_type {
                Some(n) => n.clone(),
                None => owned("Subscription"),
            },
        };
        assert(name@ == self@.root_name(kind));
        match self.type_by_name(&name) {
            Some(t) => match t.kind {
                TypeKind::Object => Some(t),
                _ => None,
            },
            None => None,
        }
    }
}

} // verus!
