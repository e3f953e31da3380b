//! The coordinate collector: a schema-aware walk over an operation document
//! that yields the set of schema coordinates the operation touches.
//!
//! The walk is specified as a function from one abstract state to the next.
//! The state holds the coordinates found so far, the names of the input
//! types whose members are listed once the walk is over, and the first
//! failure. Once a failure is recorded, no later node changes the state.

use vstd::prelude::*;
use vstd::string::*;
use crate::ast::{
    Argument, ArgumentView, Definition, DefinitionView, Directive, DirectiveView, Document,
    DocumentView, ObjectField, ObjectFieldView, Selection, SelectionView, Type, TypeView, Value,
    ValueView, VariableDefinition, VariableDefinitionView, lemma_selection_children,
    lemma_value_children,
};
use crate::schema::{
    FieldDefinition, FieldDefinitionView, InputValueDefinition, InputValueDefinitionView, Schema,
    SchemaView, TypeDefinition, TypeDefinitionView, TypeKind, find_input_value, found,
    input_value_by_name, ref_view,
};
use crate::text::{
    as_set, distinct, dotted, dotted3, insert_unique, join_dot, join_dot3, owned,
    views,
};

verus! {

/// The abstract state of the walk.
pub struct WalkState {
    pub coordinates: Set<Seq<char>>,
    pub pending: Set<Seq<char>>,
    pub error: Option<Seq<char>>,
}

impl WalkState {
    /// The state before anything is visited.
    pub open spec fn start() -> WalkState {
        WalkState { coordinates: Set::empty(), pending: Set::empty(), error: None }
    }

    /// The state with one more coordinate.
    pub open spec fn emit(self, c: Seq<char>) -> WalkState {
        WalkState { coordinates: self.coordinates.insert(c), ..self }
    }

    /// The state with a set of coordinates added.
    pub open spec fn emit_all(self, cs: Set<Seq<char>>) -> WalkState {
        WalkState { coordinates: self.coordinates.union(cs), ..self }
    }

    /// The state with one more deferred type name.
    pub open spec fn defer(self, name: Seq<char>) -> WalkState {
        WalkState { pending: self.pending.insert(name), ..self }
    }

    /// The state with a set of deferred type names added.
    pub open spec fn defer_all(self, names: Set<Seq<char>>) -> WalkState {
        WalkState { pending: self.pending.union(names), ..self }
    }

    /// The state with a failure recorded.
    pub open spec fn fail(self, message: Seq<char>) -> WalkState {
        WalkState { error: Some(message), ..self }
    }
}

/// The message recorded when a field is met where no parent type is known.
pub open spec fn field_error(name: Seq<char>) -> Seq<char> {
    "Unable to find parent type of '"@ + name + "' field"@
}

/// The message recorded when an argument is met where no parent type is known.
pub open spec fn argument_error(name: Seq<char>) -> Seq<char> {
    "Unable to find parent type of '"@ + name + "' argument"@
}

/// The coordinates `owner.member` of the first `n` members.
pub open spec fn member_coordinates(owner: Seq<char>, members: Seq<Seq<char>>, n: int) -> Set<
    Seq<char>,
> {
    Set::new(|c: Seq<char>| exists|i: int| 0 <= i < n && i < members.len() && c == dotted(owner, #[trigger] members[i]))
}

/// The names of a sequence of input values.
pub open spec fn input_names(defs: Seq<InputValueDefinitionView>) -> Seq<Seq<char>> {
    Seq::new(defs.len(), |i: int| defs[i].name)
}

/// Whether a value is a literal other than an enum, a list or an object.
pub open spec fn is_plain_scalar(v: ValueView) -> bool {
    v is Int || v is Float || v is String || v is Boolean || v is Null
}

/// `to` is the innermost type name of an input field of the input object
/// that `from` names.
pub open spec fn refers(schema: SchemaView, from: Seq<char>, to: Seq<char>) -> bool {
    match schema.type_by_name(from) {
        Some(t) => t.kind == TypeKind::InputObject && exists|i: int|
            0 <= i < t.input_fields.len() && (#[trigger] t.input_fields[i]).value_type.name == to,
        None => false,
    }
}

/// `to` is reached from `from` in exactly `n` steps through input fields.
pub open spec fn reaches(schema: SchemaView, from: Seq<char>, to: Seq<char>, n: nat) -> bool
    decreases n,
{
    if n == 0 {
        from == to
    } else {
        exists|mid: Seq<char>|
            reaches(schema, from, mid, (n - 1) as nat) && #[trigger] refers(schema, mid, to)
    }
}

/// The type names transitively reachable from `from` through the fields of
/// input objects, `from` itself included.
pub open spec fn reachable(schema: SchemaView, from: Seq<char>) -> Set<Seq<char>> {
    Set::new(|to: Seq<char>| exists|n: nat| reaches(schema, from, to, n))
}

/// What a deferred type name contributes once the walk is over: the fields
/// of an input object, the values of an enum, and the bare name where the
/// schema has no type of that name.
pub open spec fn expansion(schema: SchemaView, name: Seq<char>) -> Set<Seq<char>> {
    match schema.type_by_name(name) {
        Some(t) => if t.kind == TypeKind::InputObject {
            member_coordinates(name, input_names(t.input_fields), t.input_fields.len() as int)
        } else if t.kind == TypeKind::Enum {
            member_coordinates(t.name, t.values, t.values.len() as int)
        } else {
            Set::empty()
        },
        None => set![name],
    }
}

/// The contributions of the first `n` names of a duplicate-free listing of
/// the deferred names.
pub open spec fn expansions(schema: SchemaView, names: Seq<Seq<char>>, n: int) -> Set<Seq<char>> {
    Set::new(
        |c: Seq<char>|
            exists|i: int| 0 <= i < n && i < names.len() && expansion(schema, #[trigger] names[i]).contains(c),
    )
}

/// The contributions of a set of deferred names.
pub open spec fn expand_all(schema: SchemaView, pending: Set<Seq<char>>) -> Set<Seq<char>> {
    Set::new(
        |c: Seq<char>|
            exists|p: Seq<char>| pending.contains(p) && #[trigger] expansion(schema, p).contains(c),
    )
}

/// A field is entered under the parent type `parent`.
pub open spec fn enter_field(
    schema: SchemaView,
    name: Seq<char>,
    parent: Option<TypeDefinitionView>,
    st: WalkState,
) -> WalkState {
    if st.error is Some {
        st
    } else {
        match parent {
            None => st.fail(field_error(name)),
            Some(p) => {
                let st1 = st.emit(dotted(p.name, name));
                match p.field_by_name(name) {
                    Some(fd) => match schema.type_by_name(fd.field_type.name) {
                        Some(t) => if t.kind == TypeKind::Enum {
                            st1.emit_all(member_coordinates(t.name, t.values, t.values.len() as int))
                        } else {
                            st1
                        },
                        None => st1,
                    },
                    None => st1,
                }
            },
        }
    }
}

/// A variable definition is entered.
pub open spec fn enter_variable(schema: SchemaView, var: VariableDefinitionView, st: WalkState) -> WalkState {
    if st.error is Some {
        st
    } else {
        st.defer_all(reachable(schema, var.var_type.name))
    }
}

/// An argument is entered. `input` is the declared type of the argument,
/// where the schema declares one.
pub open spec fn enter_argument(
    schema: SchemaView,
    arg: ArgumentView,
    parent: Option<TypeDefinitionView>,
    field: Option<FieldDefinitionView>,
    input: Option<TypeView>,
    st: WalkState,
) -> WalkState {
    if st.error is Some {
        st
    } else {
        match parent {
            None => st.fail(argument_error(arg.name)),
            Some(p) => match field {
                None => st,
                Some(f) => {
                    let st1 = st.emit(dotted3(p.name, f.name, arg.name));
                    match input {
                        None => st1,
                        Some(t) => match arg.value {
                            ValueView::Enum(v) => match schema.type_by_name(t.name) {
                                Some(d) => st1.emit(dotted(d.name, v)),
                                None => st1,
                            },
                            _ => if is_plain_scalar(arg.value) {
                                st1.defer(t.name)
                            } else {
                                st1
                            },
                        },
                    }
                },
            },
        }
    }
}

/// One element of a list literal whose elements have the type `input`.
pub open spec fn list_element(input: TypeDefinitionView, v: ValueView, st: WalkState) -> WalkState {
    match v {
        ValueView::Enum(e) => st.emit(dotted(input.name, e)),
        _ => if is_plain_scalar(v) {
            st.defer(input.name)
        } else {
            st
        },
    }
}

/// The first `n` elements of a list literal, seen from the list itself.
pub open spec fn list_elements(input: TypeDefinitionView, items: Seq<ValueView>, n: int, st: WalkState) -> WalkState
    decreases n,
{
    if n <= 0 || n > items.len() {
        st
    } else {
        list_element(input, items[n - 1], list_elements(input, items, n - 1, st))
    }
}

/// A list literal is entered where the expected type resolves to `input`.
pub open spec fn enter_list(input: Option<TypeDefinitionView>, items: Seq<ValueView>, st: WalkState) -> WalkState {
    if st.error is Some {
        st
    } else {
        match input {
            Some(t) => list_elements(t, items, items.len() as int, st),
            None => st,
        }
    }
}

/// One provided field of an object literal of the input object `input`.
pub open spec fn object_member(input: TypeDefinitionView, f: ObjectFieldView, st: WalkState) -> WalkState {
    match input_value_by_name(input.input_fields, f.name) {
        Some(def) => {
            let st1 = st.emit(dotted(input.name, def.name));
            match f.value {
                ValueView::Enum(e) => st1.emit(dotted(def.value_type.name, e)),
                _ => if is_plain_scalar(f.value) {
                    st1.defer(def.value_type.name)
                } else {
                    st1
                },
            }
        },
        None => st,
    }
}

/// The first `n` provided fields of an object literal.
pub open spec fn object_members(
    input: TypeDefinitionView,
    fields: Seq<ObjectFieldView>,
    n: int,
    st: WalkState,
) -> WalkState
    decreases n,
{
    if n <= 0 || n > fields.len() {
        st
    } else {
        object_member(input, fields[n - 1], object_members(input, fields, n - 1, st))
    }
}

/// An object literal is entered where the expected type resolves to `input`.
pub open spec fn enter_object(
    input: Option<TypeDefinitionView>,
    fields: Seq<ObjectFieldView>,
    st: WalkState,
) -> WalkState {
    if st.error is Some {
        st
    } else {
        match input {
            Some(t) => if t.kind == TypeKind::InputObject {
                object_members(t, fields, fields.len() as int, st)
            } else {
                st
            },
            None => st,
        }
    }
}

/// The declared type of the field `name` of the input object that `input` names.
pub open spec fn member_type(schema: SchemaView, input: Option<TypeView>, name: Seq<char>) -> Option<TypeView> {
    match schema.resolve(input) {
        Some(t) => match t.input_field_by_name(name) {
            Some(def) => Some(def.value_type),
            None => None,
        },
        None => None,
    }
}

/// The element type of the list type `input`.
pub open spec fn element_type(input: Option<TypeView>) -> Option<TypeView> {
    match input {
        Some(t) => t.item_type(),
        None => None,
    }
}

/// A value is visited where a value of type `input` is expected.
pub open spec fn visit_value(schema: SchemaView, v: ValueView, input: Option<TypeView>, st: WalkState) -> WalkState
    decreases v, 0nat,
{
    match v {
        ValueView::List(items) => visit_items(
            schema,
            items,
            items.len() as nat,
            element_type(input),
            enter_list(schema.resolve(input), items, st),
        ),
        ValueView::Object(fields) => visit_members(
            schema,
            fields,
            fields.len() as nat,
            input,
            enter_object(schema.resolve(input), fields, st),
        ),
        _ => st,
    }
}

/// The first `n` elements of a list literal are visited.
pub open spec fn visit_items(
    schema: SchemaView,
    items: Seq<ValueView>,
    n: nat,
    input: Option<TypeView>,
    st: WalkState,
) -> WalkState
    decreases items, n,
{
    if n == 0 || n > items.len() {
        st
    } else {
        visit_value(schema, items[n - 1], input, visit_items(schema, items, (n - 1) as nat, input, st))
    }
}

/// The values of the first `n` fields of an object literal are visited.
pub open spec fn visit_members(
    schema: SchemaView,
    fields: Seq<ObjectFieldView>,
    n: nat,
    input: Option<TypeView>,
    st: WalkState,
) -> WalkState
    decreases fields, n,
{
    if n == 0 || n > fields.len() {
        st
    } else {
        visit_value(
            schema,
            fields[n - 1].value,
            member_type(schema, input, fields[n - 1].name),
            visit_members(schema, fields, (n - 1) as nat, input, st),
        )
    }
}

/// The declared type of the argument `name` among `defs`.
pub open spec fn argument_type(defs: Option<Seq<InputValueDefinitionView>>, name: Seq<char>) -> Option<TypeView> {
    match defs {
        Some(d) => match input_value_by_name(d, name) {
            Some(def) => Some(def.value_type),
            None => None,
        },
        None => None,
    }
}

/// The first `n` arguments of a field or directive are visited.
pub open spec fn visit_arguments(
    schema: SchemaView,
    args: Seq<ArgumentView>,
    n: int,
    defs: Option<Seq<InputValueDefinitionView>>,
    parent: Option<TypeDefinitionView>,
    field: Option<FieldDefinitionView>,
    st: WalkState,
) -> WalkState
    decreases n,
{
    if n <= 0 || n > args.len() {
        st
    } else {
        let arg = args[n - 1];
        let input = argument_type(defs, arg.name);
        visit_value(
            schema,
            arg.value,
            input,
            enter_argument(
                schema,
                arg,
                parent,
                field,
                input,
                visit_arguments(schema, args, n - 1, defs, parent, field, st),
            ),
        )
    }
}

/// The argument definitions of the directive `name`.
pub open spec fn directive_arguments(schema: SchemaView, name: Seq<char>) -> Option<Seq<InputValueDefinitionView>> {
    match schema.directive_by_name(name) {
        Some(d) => Some(d.arguments),
        None => None,
    }
}

/// The first `n` directives of a node are visited.
pub open spec fn visit_directives(
    schema: SchemaView,
    directives: Seq<DirectiveView>,
    n: int,
    parent: Option<TypeDefinitionView>,
    field: Option<FieldDefinitionView>,
    st: WalkState,
) -> WalkState
    decreases n,
{
    if n <= 0 || n > directives.len() {
        st
    } else {
        let d = directives[n - 1];
        visit_arguments(
            schema,
            d.arguments,
            d.arguments.len() as int,
            directive_arguments(schema, d.name),
            parent,
            field,
            visit_directives(schema, directives, n - 1, parent, field, st),
        )
    }
}

/// The definition of the field `name` under `parent`.
pub open spec fn field_definition(parent: Option<TypeDefinitionView>, name: Seq<char>) -> Option<FieldDefinitionView> {
    match parent {
        Some(p) => p.field_by_name(name),
        None => None,
    }
}

/// The type that the selection set of a field is read against.
pub open spec fn field_target(schema: SchemaView, fd: Option<FieldDefinitionView>) -> Option<TypeDefinitionView> {
    match fd {
        Some(f) => schema.type_by_name(f.field_type.name),
        None => None,
    }
}

/// The argument definitions of a field definition.
pub open spec fn field_arguments(fd: Option<FieldDefinitionView>) -> Option<Seq<InputValueDefinitionView>> {
    match fd {
        Some(f) => Some(f.arguments),
        None => None,
    }
}

/// The type that the selection set of an inline fragment is read against.
pub open spec fn fragment_target(
    schema: SchemaView,
    condition: Option<Seq<char>>,
    parent: Option<TypeDefinitionView>,
) -> Option<TypeDefinitionView> {
    match condition {
        Some(c) => schema.type_by_name(c),
        None => parent,
    }
}

/// A selection is visited under the parent type `parent`, inside the
/// selection set of the field defined by `field`.
pub open spec fn visit_selection(
    schema: SchemaView,
    s: SelectionView,
    parent: Option<TypeDefinitionView>,
    field: Option<FieldDefinitionView>,
    st: WalkState,
) -> WalkState
    decreases s, 0nat,
{
    match s {
        SelectionView::Field { alias, name, arguments, directives, selection_set } => {
            let fd = field_definition(parent, name);
            let st1 = enter_field(schema, name, parent, st);
            let st2 = visit_arguments(schema, arguments, arguments.len() as int, field_arguments(fd), parent, fd, st1);
            let st3 = visit_directives(schema, directives, directives.len() as int, parent, fd, st2);
            visit_selections(schema, selection_set, selection_set.len() as nat, field_target(schema, fd), fd, st3)
        },
        SelectionView::FragmentSpread { fragment_name, directives } => visit_directives(
            schema,
            directives,
            directives.len() as int,
            parent,
            field,
            st,
        ),
        SelectionView::InlineFragment { type_condition, directives, selection_set } => {
            let st1 = visit_directives(schema, directives, directives.len() as int, parent, field, st);
            visit_selections(
                schema,
                selection_set,
                selection_set.len() as nat,
                fragment_target(schema, type_condition, parent),
                field,
                st1,
            )
        },
    }
}

/// The first `n` selections of a selection set are visited.
pub open spec fn visit_selections(
    schema: SchemaView,
    items: Seq<SelectionView>,
    n: nat,
    parent: Option<TypeDefinitionView>,
    field: Option<FieldDefinitionView>,
    st: WalkState,
) -> WalkState
    decreases items, n,
{
    if n == 0 || n > items.len() {
        st
    } else {
        visit_selection(
            schema,
            items[n - 1],
            parent,
            field,
            visit_selections(schema, items, (n - 1) as nat, parent, field, st),
        )
    }
}

/// The first `n` variable definitions of an operation are visited.
pub open spec fn visit_variables(schema: SchemaView, vars: Seq<VariableDefinitionView>, n: int, st: WalkState) -> WalkState
    decreases n,
{
    if n <= 0 || n > vars.len() {
        st
    } else {
        let var = vars[n - 1];
        let st1 = enter_variable(schema, var, visit_variables(schema, vars, n - 1, st));
        match var.default_value {
            Some(v) => visit_value(schema, v, Some(var.var_type), st1),
            None => st1,
        }
    }
}

/// A definition of the document is visited.
pub open spec fn visit_definition(schema: SchemaView, d: DefinitionView, st: WalkState) -> WalkState {
    match d {
        DefinitionView::Operation(op) => {
            let st1 = visit_directives(schema, op.directives, op.directives.len() as int, None, None, st);
            let st2 = visit_variables(schema, op.variable_definitions, op.variable_definitions.len() as int, st1);
            visit_selections(schema, op.selection_set, op.selection_set.len() as nat, schema.root_type(op.kind), None, st2)
        },
        DefinitionView::Fragment(f) => {
            let st1 = visit_directives(schema, f.directives, f.directives.len() as int, None, None, st);
            visit_selections(
                schema,
                f.selection_set,
                f.selection_set.len() as nat,
                schema.type_by_name(f.type_condition),
                None,
                st1,
            )
        },
    }
}

/// The first `n` definitions of a document are visited.
pub open spec fn visit_definitions(schema: SchemaView, defs: Seq<DefinitionView>, n: int, st: WalkState) -> WalkState
    decreases n,
{
    if n <= 0 || n > defs.len() {
        st
    } else {
        visit_definition(schema, defs[n - 1], visit_definitions(schema, defs, n - 1, st))
    }
}

/// The state in which the walk over a whole document ends.
pub open spec fn walk(document: DocumentView, schema: SchemaView) -> WalkState {
    visit_definitions(schema, document.definitions, document.definitions.len() as int, WalkState::start())
}

/// The coordinates of a document: the first failure of the walk, or else
/// what the walk found together with the members of every deferred type.
pub open spec fn schema_coordinates(document: DocumentView, schema: SchemaView) -> Result<Set<Seq<char>>, Seq<char>> {
    let end = walk(document, schema);
    match end.error {
        Some(e) => Err(e),
        None => Ok(end.coordinates.union(expand_all(schema, end.pending))),
    }
}

/// Listing one more member adds its coordinate.
pub proof fn lemma_member_step(owner: Seq<char>, members: Seq<Seq<char>>, n: int)
    requires
        0 <= n < members.len(),
    ensures
        member_coordinates(owner, members, n + 1) == member_coordinates(owner, members, n).insert(
            dotted(owner, members[n]),
        ),
        member_coordinates(owner, members, 0) == Set::<Seq<char>>::empty(),
{
    assert(member_coordinates(owner, members, n + 1) =~= member_coordinates(owner, members, n).insert(
        dotted(owner, members[n]),
    ));
    assert(member_coordinates(owner, members, 0) =~= Set::<Seq<char>>::empty());
}

/// Expanding one more deferred name adds its contribution.
pub proof fn lemma_expansions_step(schema: SchemaView, names: Seq<Seq<char>>, n: int)
    requires
        0 <= n < names.len(),
    ensures
        expansions(schema, names, n + 1) == expansions(schema, names, n).union(
            expansion(schema, names[n]),
        ),
        expansions(schema, names, 0) == Set::<Seq<char>>::empty(),
{
    assert(expansions(schema, names, n + 1) =~= expansions(schema, names, n).union(
        expansion(schema, names[n]),
    ));
    assert(expansions(schema, names, 0) =~= Set::<Seq<char>>::empty());
}

/// Expanding every name of a listing is expanding the set it lists.
pub proof fn lemma_expansions_all(schema: SchemaView, names: Seq<Seq<char>>)
    ensures
        expansions(schema, names, names.len() as int) == expand_all(schema, as_set(names)),
{
    let a = expansions(schema, names, names.len() as int);
    let b = expand_all(schema, as_set(names));
    assert forall|c: Seq<char>| a.contains(c) == b.contains(c) by {
        if a.contains(c) {
            let i = choose|i: int|
                0 <= i < names.len() && i < names.len() && expansion(schema, #[trigger] names[i]).contains(c);
            assert(names.contains(names[i]));
            assert(as_set(names).contains(names[i]));
        }
        if b.contains(c) {
            let p = choose|p: Seq<char>| as_set(names).contains(p) && #[trigger] expansion(schema, p).contains(c);
            let i = choose|i: int| 0 <= i < names.len() && names[i] == p;
            assert(expansion(schema, names[i]).contains(c));
        }
    }
    assert(a =~= b);
}

/// What is referred to by a reachable name is reachable.
pub proof fn lemma_reachable_step(schema: SchemaView, from: Seq<char>, mid: Seq<char>, to: Seq<char>)
    requires
        reachable(schema, from).contains(mid),
        refers(schema, mid, to),
    ensures
        reachable(schema, from).contains(to),
{
    let n = choose|n: nat| reaches(schema, from, mid, n);
    assert(reaches(schema, from, mid, ((n + 1) - 1) as nat));
    assert(reaches(schema, from, to, n + 1));
}

/// A set that holds `from` and is closed under references holds whatever
/// `from` reaches.
pub proof fn lemma_closed_holds_reachable(
    schema: SchemaView,
    from: Seq<char>,
    closed: Set<Seq<char>>,
    to: Seq<char>,
    n: nat,
)
    requires
        closed.contains(from),
        forall|a: Seq<char>, b: Seq<char>| closed.contains(a) && #[trigger] refers(schema, a, b) ==> closed.contains(b),
        reaches(schema, from, to, n),
    ensures
        closed.contains(to),
    decreases n,
{
    if n > 0 {
        let mid = choose|mid: Seq<char>|
            reaches(schema, from, mid, (n - 1) as nat) && #[trigger] refers(schema, mid, to);
        lemma_closed_holds_reachable(schema, from, closed, mid, (n - 1) as nat);
    }
}

/// The working state of the collector.
pub struct SchemaCoordinatesContext {
    pub schema_coordinates: Vec<String>,
    pub input_types_to_collect: Vec<String>,
    pub error: Option<String>,
}

impl SchemaCoordinatesContext {
    /// Neither collection holds a string twice.
    pub open spec fn wf(&self) -> bool {
        distinct(views(self.schema_coordinates@)) && distinct(views(self.input_types_to_collect@))
    }

    /// The abstract state that the context stands for.
    pub open spec fn state(&self) -> WalkState {
        WalkState {
            coordinates: as_set(views(self.schema_coordinates@)),
            pending: as_set(views(self.input_types_to_collect@)),
            error: match self.error {
                Some(e) => Some(e@),
                None => None,
            },
        }
    }

    /// A context in which nothing has been found yet.
    pub fn new() -> (r: SchemaCoordinatesContext)
        ensures
            r.wf(),
            r.state() == WalkState::start(),
    {
        let r = SchemaCoordinatesContext {
            schema_coordinates: Vec::new(),
            input_types_to_collect: Vec::new(),
            error: None,
        };
        assert(r.state().coordinates =~= Set::<Seq<char>>::empty());
        assert(r.state().pending =~= Set::<Seq<char>>::empty());
        r
    }

    /// Whether a failure has been recorded.
    pub fn is_corrupted(&self) -> (r: bool)
        ensures
            r == (self.state().error is Some),
    {
        self.error.is_some()
    }

    fn emit(&mut self, c: String)
        requires
            old(self).wf(),
        ensures
            final(self).wf(),
            final(self).state() == old(self).state().emit(c@),
            final(self).input_types_to_collect == old(self).input_types_to_collect,
    {
        insert_unique(&mut self.schema_coordinates, c);
    }

    fn defer(&mut self, name: String)
        requires
            old(self).wf(),
        ensures
            final(self).wf(),
            final(self).state() == old(self).state().defer(name@),
    {
        insert_unique(&mut self.input_types_to_collect, name);
    }

    fn emit_members(&mut self, owner: &String, members: &Vec<String>)
        requires
            old(self).wf(),
        ensures
            final(self).wf(),
            final(self).state() == old(self).state().emit_all(
                member_coordinates(owner@, views(members@), members@.len() as int),
            ),
            final(self).input_types_to_collect == old(self).input_types_to_collect,
    {
        let ghost before = self.state();
        let ghost deferred = self.input_types_to_collect;
        let mut i: usize = 0;
        proof {
            if members@.len() > 0 {
                lemma_member_step(owner@, views(members@), 0);
            }
            assert(member_coordinates(owner@, views(members@), 0) =~= Set::<Seq<char>>::empty());
            assert(before.coordinates.union(Set::<Seq<char>>::empty()) =~= before.coordinates);
        }
        while i < members.len()
            invariant
                i <= members.len(),
                self.wf(),
                self.input_types_to_collect == deferred,
                self.state() == before.emit_all(member_coordinates(owner@, views(members@), i as int)),
            decreases members.len() - i,
        {
            let c = join_dot(owner.as_str(), members[i].as_str());
            self.emit(c);
            proof {
                lemma_member_step(owner@, views(members@), i as int);
                assert(self.state().coordinates =~= before.coordinates.union(
                    member_coordinates(owner@, views(members@), i + 1),
                ));
            }
            i += 1;
        }
    }

    fn emit_input_members(&mut self, owner: &String, defs: &Vec<InputValueDefinition>)
        requires
            old(self).wf(),
        ensures
            final(self).wf(),
            final(self).state() == old(self).state().emit_all(
                member_coordinates(owner@, input_names(views(defs@)), defs@.len() as int),
            ),
            final(self).input_types_to_collect == old(self).input_types_to_collect,
    {
        let ghost before = self.state();
        let ghost deferred = self.input_types_to_collect;
        let ghost names = input_names(views(defs@));
        let mut i: usize = 0;
        proof {
            assert(member_coordinates(owner@, names, 0) =~= Set::<Seq<char>>::empty());
            assert(before.coordinates.union(Set::<Seq<char>>::empty()) =~= before.coordinates);
        }
        while i < defs.len()
            invariant
                i <= defs.len(),
                names == input_names(views(defs@)),
                self.wf(),
                self.input_types_to_collect == deferred,
                self.state() == before.emit_all(member_coordinates(owner@, names, i as int)),
            decreases defs.len() - i,
        {
            let c = join_dot(owner.as_str(), defs[i].name.as_str());
            self.emit(c);
            proof {
                lemma_member_step(owner@, names, i as int);
                assert(self.state().coordinates =~= before.coordinates.union(
                    member_coordinates(owner@, names, i + 1),
                ));
            }
            i += 1;
        }
    }
}

/// The walk itself, bound to the schema it reads.
pub struct SchemaCoordinatesVisitor<'a> {
    pub schema: &'a Schema,
}

impl<'a> SchemaCoordinatesVisitor<'a> {
    /// The type names transitively reachable from `start` through the
    /// fields of input objects, each once, `start` first.
    pub fn resolve_references(&self, start: &String) -> (visited: Vec<String>)
        ensures
            distinct(views(visited@)),
            as_set(views(visited@)) == reachable(self.schema@, start@),
    {
        let ghost schema = self.schema@;
        let ghost from = start@;
        let mut visited: Vec<String> = Vec::new();
        visited.push(start.clone());
        proof {
            assert(reaches(schema, from, from, 0));
            assert(views(visited@)[0] == from);
        }
        let mut idx: usize = 0;
        while idx < visited.len()
            invariant
                schema == self.schema@,
                from == start@,
                idx <= visited.len(),
                visited.len() >= 1,
                views(visited@)[0] == from,
                distinct(views(visited@)),
                forall|k: int| 0 <= k < visited.len() ==> reachable(schema, from).contains(#[trigger] views(visited@)[k]),
                forall|k: int, b: Seq<char>|
                    0 <= k < idx && #[trigger] refers(schema, views(visited@)[k], b) ==> views(visited@).contains(b),
            decreases usize::MAX - idx,
        {
            let name = visited[idx].clone();
            let ghost at_entry = views(visited@);
            assert(at_entry[idx as int] == name@);
            match self.schema.type_by_name(&name) {
                Some(t) => match t.kind {
                    TypeKind::InputObject => {
                        let mut j: usize = 0;
                        while j < t.input_fields.len()
                            invariant
                                schema == self.schema@,
                                schema.type_by_name(name@) == Some(t@),
                                t.kind == TypeKind::InputObject,
                                reachable(schema, from).contains(name@),
                                j <= t.input_fields.len(),
                                idx < visited.len(),
                                at_entry.len() <= visited.len(),
                                forall|k: int| 0 <= k < at_entry.len() ==> views(visited@)[k] == at_entry[k],
                                distinct(views(visited@)),
                                forall|k: int| 0 <= k < visited.len() ==> reachable(schema, from).contains(#[trigger] views(visited@)[k]),
                                forall|m: int| 0 <= m < j ==> views(visited@).contains((#[trigger] t@.input_fields[m]).value_type.name),
                            decreases t.input_fields.len() - j,
                        {
                            let ghost before = views(visited@);
                            let next = t.input_fields[j].value_type.name.clone();
                            proof {
                                assert(t@.input_fields[j as int].value_type.name == next@);
                                assert(refers(schema, name@, next@));
                                lemma_reachable_step(schema, from, name@, next@);
                            }
                            insert_unique(&mut visited, next);
                            proof {
                                let after = views(visited@);
                                assert(as_set(after).contains(next@));
                                assert(after.contains(next@));
                                assert forall|m: int| 0 <= m < j + 1 implies after.contains((#[trigger] t@.input_fields[m]).value_type.name) by {
                                    if m < j {
                                        let x = t@.input_fields[m].value_type.name;
                                        assert(before.contains(x));
                                        let k = choose|k: int| 0 <= k < before.len() && before[k] == x;
                                        assert(after[k] == x);
                                    }
                                }
                            }
                            j += 1;
                        }
                        proof {
                            let after = views(visited@);
                            assert forall|b: Seq<char>| #[trigger] refers(schema, at_entry[idx as int], b) implies after.contains(b) by {
                                let m = choose|m: int|
                                    0 <= m < t@.input_fields.len() && (#[trigger] t@.input_fields[m]).value_type.name == b;
                                assert(after.contains(t@.input_fields[m].value_type.name));
                            }
                        }
                    },
                    _ => {},
                },
                None => {},
            }
            proof {
                let after = views(visited@);
                assert forall|k: int, b: Seq<char>| 0 <= k < idx + 1 && #[trigger] refers(schema, after[k], b) implies after.contains(b) by {
                    assert(after[k] == at_entry[k]);
                    if k < idx {
                        assert(at_entry.contains(b));
                        let m = choose|m: int| 0 <= m < at_entry.len() && at_entry[m] == b;
                        assert(after[m] == b);
                    }
                }
            }
            idx += 1;
        }
        proof {
            let all = views(visited@);
            let closed = as_set(all);
            assert(all.contains(all[0]));
            assert forall|a: Seq<char>, b: Seq<char>| closed.contains(a) && #[trigger] refers(schema, a, b) implies closed.contains(b) by {
                let k = choose|k: int| 0 <= k < all.len() && all[k] == a;
                assert(refers(schema, all[k], b));
            }
            assert forall|x: Seq<char>| closed.contains(x) == reachable(schema, from).contains(x) by {
                if closed.contains(x) {
                    let k = choose|k: int| 0 <= k < all.len() && all[k] == x;
                    assert(reachable(schema, from).contains(all[k]));
                }
                if reachable(schema, from).contains(x) {
                    let n = choose|n: nat| reaches(schema, from, x, n);
                    lemma_closed_holds_reachable(schema, from, closed, x, n);
                }
            }
            assert(closed =~= reachable(schema, from));
        }
        visited
    }

    /// Records a field under its parent type, and every value of the enum
    /// that the field returns.
    pub fn enter_field(&self, ctx: &mut SchemaCoordinatesContext, name: &String, parent: Option<&TypeDefinition>)
        requires
            old(ctx).wf(),
        ensures
            final(ctx).wf(),
            final(ctx).state() == enter_field(self.schema@, name@, ref_view(parent), old(ctx).state()),
    {
        if ctx.is_corrupted() {
            return ;
        }
        match parent {
            None => {
                let mut message = owned("Unable to find parent type of '");
                message.append(name.as_str());
                message.append("' field");
                ctx.error = Some(message);
            },
            Some(p) => {
                ctx.emit(join_dot(p.name.as_str(), name.as_str()));
                match p.field_by_name(name) {
                    Some(fd) => match self.schema.type_by_name(&fd.field_type.name) {
                        Some(t) => match t.kind {
                            TypeKind::Enum => {
                                ctx.emit_members(&t.name, &t.values);
                            },
                            _ => {},
                        },
                        None => {},
                    },
                    None => {},
                }
            },
        }
    }

    /// Defers the type of a variable and every input type it reaches.
    pub fn enter_variable_definition(&self, ctx: &mut SchemaCoordinatesContext, var: &VariableDefinition)
        requires
            old(ctx).wf(),
        ensures
            final(ctx).wf(),
            final(ctx).state() == enter_variable(self.schema@, var@, old(ctx).state()),
    {
        if ctx.is_corrupted() {
            return ;
        }
        let ghost before = ctx.state();
        let inner = self.resolve_references(&var.var_type.name);
        let mut i: usize = 0;
        proof {
            assert(views(inner@).take(0) =~= Seq::<Seq<char>>::empty());
            assert(as_set(Seq::<Seq<char>>::empty()) =~= Set::<Seq<char>>::empty());
            assert(before.pending.union(Set::<Seq<char>>::empty()) =~= before.pending);
        }
        while i < inner.len()
            invariant
                i <= inner.len(),
                ctx.wf(),
                ctx.state() == before.defer_all(as_set(views(inner@).take(i as int))),
            decreases inner.len() - i,
        {
            ctx.defer(inner[i].clone());
            proof {
                let names = views(inner@);
                assert(names.take(i + 1) =~= names.take(i as int).push(names[i as int]));
                crate::text::lemma_as_set_push(names.take(i as int), names[i as int]);
                assert(ctx.state().pending =~= before.pending.union(as_set(names.take(i + 1))));
            }
            i += 1;
        }
        proof {
            assert(views(inner@).take(inner.len() as int) =~= views(inner@));
        }
    }

    /// Records an argument of the current field, and what its literal value
    /// says about the argument's type.
    pub fn enter_argument(
        &self,
        ctx: &mut SchemaCoordinatesContext,
        arg: &Argument,
        parent: Option<&TypeDefinition>,
        field: Option<&FieldDefinition>,
        input: Option<&Type>,
    )
        requires
            old(ctx).wf(),
        ensures
            final(ctx).wf(),
            final(ctx).state() == enter_argument(
                self.schema@,
                arg@,
                ref_view(parent),
                ref_view(field),
                ref_view(input),
                old(ctx).state(),
            ),
    {
        if ctx.is_corrupted() {
            return ;
        }
        match parent {
            None => {
                let mut message = owned("Unable to find parent type of '");
                message.append(arg.name.as_str());
                message.append("' argument");
                ctx.error = Some(message);
            },
            Some(p) => match field {
                None => {},
                Some(f) => {
                    ctx.emit(join_dot3(p.name.as_str(), f.name.as_str(), arg.name.as_str()));
                    match input {
                        None => {},
                        Some(t) => match &arg.value {
                            Value::Enum(v) => match self.schema.type_by_name(&t.name) {
                                Some(d) => {
                                    ctx.emit(join_dot(d.name.as_str(), v.as_str()));
                                },
                                None => {},
                            },
                            Value::Int(_) | Value::Float(_) | Value::String(_) | Value::Boolean(_) | Value::Null => {
                                ctx.defer(t.name.clone());
                            },
                            _ => {},
                        },
                    }
                },
            },
        }
    }

    /// Records what the elements of a list literal say about the list's type.
    pub fn enter_list_value(&self, ctx: &mut SchemaCoordinatesContext, values: &Vec<Value>, input: Option<&TypeDefinition>)
        requires
            old(ctx).wf(),
        ensures
            final(ctx).wf(),
            final(ctx).state() == enter_list(ref_view(input), views(values@), old(ctx).state()),
    {
        if ctx.is_corrupted() {
            return ;
        }
        let ghost before = ctx.state();
        match input {
            None => {},
            Some(t) => {
                let mut i: usize = 0;
                while i < values.len()
                    invariant
                        i <= values.len(),
                        ctx.wf(),
                        ctx.state() == list_elements(t@, views(values@), i as int, before),
                    decreases values.len() - i,
                {
                    assert(views(values@)[i as int] == values@[i as int]@);
                    match &values[i] {
                        Value::Enum(e) => {
                            ctx.emit(join_dot(t.name.as_str(), e.as_str()));
                        },
                        Value::Int(_) | Value::Float(_) | Value::String(_) | Value::Boolean(_) | Value::Null => {
                            ctx.defer(t.name.clone());
                        },
                        _ => {},
                    }
                    i += 1;
                }
            },
        }
    }

    /// Records the provided fields of an object literal, and what their
    /// literal values say about the fields' types.
    pub fn enter_object_value(
        &self,
        ctx: &mut SchemaCoordinatesContext,
        object_value: &Vec<ObjectField>,
        input: Option<&TypeDefinition>,
    )
        requires
            old(ctx).wf(),
        ensures
            final(ctx).wf(),
            final(ctx).state() == enter_object(ref_view(input), views(object_value@), old(ctx).state()),
    {
        if ctx.is_corrupted() {
            return ;
        }
        let ghost before = ctx.state();
        match input {
            None => {},
            Some(t) => match t.kind {
                TypeKind::InputObject => {
                    let mut i: usize = 0;
                    while i < object_value.len()
                        invariant
                            i <= object_value.len(),
                            ctx.wf(),
                            ctx.state() == object_members(t@, views(object_value@), i as int, before),
                        decreases object_value.len() - i,
                    {
                        assert(views(object_value@)[i as int] == object_value@[i as int]@);
                        let f = &object_value[i];
                        match find_input_value(&t.input_fields, &f.name) {
                            Some(def) => {
                                ctx.emit(join_dot(t.name.as_str(), def.name.as_str()));
                                match &f.value {
                                    Value::Enum(e) => {
                                        ctx.emit(join_dot(def.value_type.name.as_str(), e.as_str()));
                                    },
                                    Value::Int(_) | Value::Float(_) | Value::String(_) | Value::Boolean(_) | Value::Null => {
                                        ctx.defer(def.value_type.name.clone());
                                    },
                                    _ => {},
                                }
                            },
                            None => {},
                        }
                        i += 1;
                    }
                },
                _ => {},
            },
        }
    }

    /// Visits a value where a value of type `input` is expected.
    #[verifier::loop_isolation(false)]
    pub fn visit_input_value(&self, ctx: &mut SchemaCoordinatesContext, value: &Value, input: Option<&Type>)
        requires
            old(ctx).wf(),
        ensures
            final(ctx).wf(),
            final(ctx).state() == visit_value(self.schema@, value@, ref_view(input), old(ctx).state()),
        decreases value,
    {
        let ghost before = ctx.state();
        proof {
            lemma_value_children(*value);
        }
        match value {
            Value::List(items) => {
                self.enter_list_value(ctx, items, self.schema.resolve(input));
                let ghost entered = ctx.state();
                let element = match input {
                    Some(t) => t.item_type(),
                    None => None,
                };
                let mut i: usize = 0;
                while i < items.len()
                    invariant
                        i <= items.len(),
                        ctx.wf(),
                        element_type(ref_view(input)) == match element {
                            Some(t) => Some(t@),
                            None => None,
                        },
                        ctx.state() == visit_items(
                            self.schema@,
                            views(items@),
                            i as nat,
                            element_type(ref_view(input)),
                            entered,
                        ),
                    decreases items.len() - i,
                {
                    self.visit_input_value(ctx, &items[i], element.as_ref());
                    i += 1;
                }
            },
            Value::Object(fields) => {
                let resolved = self.schema.resolve(input);
                self.enter_object_value(ctx, fields, resolved);
                let ghost entered = ctx.state();
                let mut i: usize = 0;
                while i < fields.len()
                    invariant
                        i <= fields.len(),
                        ctx.wf(),
                        found(resolved, self.schema@.resolve(ref_view(input))),
                        ctx.state() == visit_members(self.schema@, views(fields@), i as nat, ref_view(input), entered),
                    decreases fields.len() - i,
                {
                    let f = &fields[i];
                    let member: Option<&Type> = match resolved {
                        Some(t) => match t.input_field_by_name(&f.name) {
                            Some(def) => Some(&def.value_type),
                            None => None,
                        },
                        None => None,
                    };
                    assert(ref_view(member) == member_type(self.schema@, ref_view(input), f.name@));
                    self.visit_input_value(ctx, &f.value, member);
                    i += 1;
                }
            },
            _ => {},
        }
    }

    /// Visits the arguments of a field or directive, whose definitions are `defs`.
    pub fn visit_arguments(
        &self,
        ctx: &mut SchemaCoordinatesContext,
        arguments: &Vec<Argument>,
        defs: Option<&Vec<InputValueDefinition>>,
        parent: Option<&TypeDefinition>,
        field: Option<&FieldDefinition>,
    )
        requires
            old(ctx).wf(),
        ensures
            final(ctx).wf(),
            final(ctx).state() == visit_arguments(
                self.schema@,
                views(arguments@),
                arguments@.len() as int,
                match defs {
                    Some(d) => Some(views(d@)),
                    None => None,
                },
                ref_view(parent),
                ref_view(field),
                old(ctx).state(),
            ),
    {
        let ghost before = ctx.state();
        let ghost defs_view: Option<Seq<InputValueDefinitionView>> = match defs {
            Some(d) => Some(views(d@)),
            None => None,
        };
        let mut i: usize = 0;
        while i < arguments.len()
            invariant
                i <= arguments.len(),
                ctx.wf(),
                defs_view == match defs {
                    Some(d) => Some(views(d@)),
                    None => None,
                },
                ctx.state() == visit_arguments(
                    self.schema@,
                    views(arguments@),
                    i as int,
                    defs_view,
                    ref_view(parent),
                    ref_view(field),
                    before,
                ),
            decreases arguments.len() - i,
        {
            let arg = &arguments[i];
            let input: Option<&Type> = match defs {
                Some(d) => match find_input_value(d, &arg.name) {
                    Some(def) => Some(&def.value_type),
                    None => None,
                },
                None => None,
            };
            assert(ref_view(input) == argument_type(defs_view, arg.name@));
            self.enter_argument(ctx, arg, parent, field, input);
            self.visit_input_value(ctx, &arg.value, input);
            i += 1;
        }
    }

    /// Visits the directives of a node.
    pub fn visit_directives(
        &self,
        ctx: &mut SchemaCoordinatesContext,
        directives: &Vec<Directive>,
        parent: Option<&TypeDefinition>,
        field: Option<&FieldDefinition>,
    )
        requires
            old(ctx).wf(),
        ensures
            final(ctx).wf(),
            final(ctx).state() == visit_directives(
                self.schema@,
                views(directives@),
                directives@.len() as int,
                ref_view(parent),
                ref_view(field),
                old(ctx).state(),
            ),
    {
        let ghost before = ctx.state();
        let mut i: usize = 0;
        while i < directives.len()
            invariant
                i <= directives.len(),
                ctx.wf(),
                ctx.state() == visit_directives(
                    self.schema@,
                    views(directives@),
                    i as int,
                    ref_view(parent),
                    ref_view(field),
                    before,
                ),
            decreases directives.len() - i,
        {
            let d = &directives[i];
            let defs: Option<&Vec<InputValueDefinition>> = match self.schema.directive_by_name(&d.name) {
                Some(def) => Some(&def.arguments),
                None => None,
            };
            self.visit_arguments(ctx, &d.arguments, defs, parent, field);
            i += 1;
        }
    }

    /// Visits a selection under `parent`, inside the selection set of the
    /// field defined by `field`.
    #[verifier::loop_isolation(false)]
    pub fn visit_selection(
        &self,
        ctx: &mut SchemaCoordinatesContext,
        selection: &Selection,
        parent: Option<&TypeDefinition>,
        field: Option<&FieldDefinition>,
    )
        requires
            old(ctx).wf(),
        ensures
            final(ctx).wf(),
            final(ctx).state() == visit_selection(
                self.schema@,
                selection@,
                ref_view(parent),
                ref_view(field),
                old(ctx).state(),
            ),
        decreases selection,
    {
        proof {
            lemma_selection_children(*selection);
        }
        match selection {
            Selection::Field { alias, name, arguments, directives, selection_set } => {
                let fd: Option<&FieldDefinition> = match parent {
                    Some(p) => p.field_by_name(name),
                    None => None,
                };
                assert(ref_view(fd) == field_definition(ref_view(parent), name@));
                self.enter_field(ctx, name, parent);
                let defs: Option<&Vec<InputValueDefinition>> = match fd {
                    Some(f) => Some(&f.arguments),
                    None => None,
                };
                self.visit_arguments(ctx, arguments, defs, parent, fd);
                self.visit_directives(ctx, directives, parent, fd);
                let target: Option<&TypeDefinition> = match fd {
                    Some(f) => self.schema.type_by_name(&f.field_type.name),
                    None => None,
                };
                assert(ref_view(target) == field_target(self.schema@, ref_view(fd)));
                let ghost entered = ctx.state();
                let mut i: usize = 0;
                while i < selection_set.len()
                    invariant
                        i <= selection_set.len(),
                        ctx.wf(),
                        ctx.state() == visit_selections(
                            self.schema@,
                            views(selection_set@),
                            i as nat,
                            ref_view(target),
                            ref_view(fd),
                            entered,
                        ),
                    decreases selection_set.len() - i,
                {
                    self.visit_selection(ctx, &selection_set[i], target, fd);
                    i += 1;
                }
            },
            Selection::FragmentSpread { fragment_name, directives } => {
                self.visit_directives(ctx, directives, parent, field);
            },
            Selection::InlineFragment { type_condition, directives, selection_set } => {
                self.visit_directives(ctx, directives, parent, field);
                let target: Option<&TypeDefinition> = match type_condition {
                    Some(c) => self.schema.type_by_name(c),
                    None => parent,
                };
                assert(ref_view(target) == fragment_target(self.schema@, selection@->InlineFragment_type_condition, ref_view(parent)));
                let ghost entered = ctx.state();
                let mut i: usize = 0;
                while i < selection_set.len()
                    invariant
                        i <= selection_set.len(),
                        ctx.wf(),
                        ctx.state() == visit_selections(
                            self.schema@,
                            views(selection_set@),
                            i as nat,
                            ref_view(target),
                            ref_view(field),
                            entered,
                        ),
                    decreases selection_set.len() - i,
                {
                    self.visit_selection(ctx, &selection_set[i], target, field);
                    i += 1;
                }
            },
        }
    }

    /// Visits a selection set that is read against the type `parent`.
    pub fn visit_selection_set(
        &self,
        ctx: &mut SchemaCoordinatesContext,
        items: &Vec<Selection>,
        parent: Option<&TypeDefinition>,
    )
        requires
            old(ctx).wf(),
        ensures
            final(ctx).wf(),
            final(ctx).state() == visit_selections(
                self.schema@,
                views(items@),
                items@.len() as nat,
                ref_view(parent),
                None,
                old(ctx).state(),
            ),
    {
        let ghost before = ctx.state();
        let mut i: usize = 0;
        while i < items.len()
            invariant
                i <= items.len(),
                ctx.wf(),
                ctx.state() == visit_selections(self.schema@, views(items@), i as nat, ref_view(parent), None, before),
            decreases items.len() - i,
        {
            self.visit_selection(ctx, &items[i], parent, None);
            i += 1;
        }
    }

    /// Visits the variable definitions of an operation.
    pub fn visit_variable_definitions(&self, ctx: &mut SchemaCoordinatesContext, variables: &Vec<VariableDefinition>)
        requires
            old(ctx).wf(),
        ensures
            final(ctx).wf(),
            final(ctx).state() == visit_variables(
                self.schema@,
                views(variables@),
                variables@.len() as int,
                old(ctx).state(),
            ),
    {
        let ghost before = ctx.state();
        let mut i: usize = 0;
        while i < variables.len()
            invariant
                i <= variables.len(),
                ctx.wf(),
                ctx.state() == visit_variables(self.schema@, views(variables@), i as int, before),
            decreases variables.len() - i,
        {
            let var = &variables[i];
            self.enter_variable_definition(ctx, var);
            match &var.default_value {
                Some(v) => {
                    self.visit_input_value(ctx, v, Some(&var.var_type));
                },
                None => {},
            }
            i += 1;
        }
    }

    /// Visits one definition of the document.
    pub fn visit_definition(&self, ctx: &mut SchemaCoordinatesContext, definition: &Definition)
        requires
            old(ctx).wf(),
        ensures
            final(ctx).wf(),
            final(ctx).state() == visit_definition(self.schema@, definition@, old(ctx).state()),
    {
        match definition {
            Definition::Operation(op) => {
                self.visit_directives(ctx, &op.directives, None, None);
                self.visit_variable_definitions(ctx, &op.variable_definitions);
                self.visit_selection_set(ctx, &op.selection_set, self.schema.root_type(op.kind));
            },
            Definition::Fragment(f) => {
                self.visit_directives(ctx, &f.directives, None, None);
                self.visit_selection_set(ctx, &f.selection_set, self.schema.type_by_name(&f.type_condition));
            },
        }
    }

    /// Visits every definition of the document.
    pub fn visit_document(&self, ctx: &mut SchemaCoordinatesContext, document: &Document)
        requires
            old(ctx).wf(),
        ensures
            final(ctx).wf(),
            final(ctx).state() == visit_definitions(
                self.schema@,
                document@.definitions,
                document@.definitions.len() as int,
                old(ctx).state(),
            ),
    {
        let ghost before = ctx.state();
        let mut i: usize = 0;
        while i < document.definitions.len()
            invariant
                i <= document.definitions.len(),
                ctx.wf(),
                ctx.state() == visit_definitions(self.schema@, document@.definitions, i as int, before),
            decreases document.definitions.len() - i,
        {
            self.visit_definition(ctx, &document.definitions[i]);
            i += 1;
        }
    }
}

/// Adds to `out` what the deferred name `name` contributes.
fn expand_into(schema: &Schema, name: &String, out: &mut SchemaCoordinatesContext)
    requires
        old(out).wf(),
    ensures
        final(out).wf(),
        final(out).state() == old(out).state().emit_all(expansion(schema@, name@)),
        final(out).input_types_to_collect == old(out).input_types_to_collect,
{
    let ghost before = out.state();
    match schema.type_by_name(name) {
        Some(t) => match t.kind {
            TypeKind::InputObject => {
                out.emit_input_members(name, &t.input_fields);
            },
            TypeKind::Enum => {
                out.emit_members(&t.name, &t.values);
            },
            _ => {
                assert(before.coordinates.union(Set::<Seq<char>>::empty()) =~= before.coordinates);
            },
        },
        None => {
            out.emit(name.clone());
            assert(before.coordinates.insert(name@) =~= before.coordinates.union(set![name@]));
        },
    }
}

/// The schema coordinates that `document` touches, each once: every field
/// with its parent type, every argument with its field, every enum value and
/// input field that the operation provides or may provide through a variable.
/// Fails with the first failure of the walk, which is a field or an argument
/// met where no parent type is known.
pub fn collect_schema_coordinates(document: &Document, schema: &Schema) -> (r: Result<Vec<String>, String>)
    ensures
        match r {
            Ok(found) => distinct(views(found@)) && schema_coordinates(document@, schema@) == Ok::<
                Set<Seq<char>>,
                Seq<char>,
            >(as_set(views(found@))),
            Err(e) => schema_coordinates(document@, schema@) == Err::<Set<Seq<char>>, Seq<char>>(e@),
        },
{
    let mut ctx = SchemaCoordinatesContext::new();
    let visitor = SchemaCoordinatesVisitor { schema };
    visitor.visit_document(&mut ctx, document);
    let ghost end = ctx.state();
    assert(end == walk(document@, schema@));
    if ctx.is_corrupted() {
        match ctx.error {
            Some(e) => Err(e),
            None => Err(String::new()),
        }
    } else {
        let ghost names = views(ctx.input_types_to_collect@);
        let mut i: usize = 0;
        proof {
            assert(expansions(schema@, names, 0) =~= Set::<Seq<char>>::empty());
            assert(end.coordinates.union(Set::<Seq<char>>::empty()) =~= end.coordinates);
        }
        while i < ctx.input_types_to_collect.len()
            invariant
                i <= ctx.input_types_to_collect.len(),
                ctx.wf(),
                names == views(ctx.input_types_to_collect@),
                ctx.state().coordinates == end.coordinates.union(expansions(schema@, names, i as int)),
            decreases ctx.input_types_to_collect.len() - i,
        {
            let name = ctx.input_types_to_collect[i].clone();
            expand_into(schema, &name, &mut ctx);
            proof {
                lemma_expansions_step(schema@, names, i as int);
                assert(ctx.state().coordinates =~= end.coordinates.union(expansions(schema@, names, i + 1)));
            }
            i += 1;
        }
        proof {
            lemma_expansions_all(schema@, names);
        }
        Ok(ctx.schema_coordinates)
    }
}

} // verus!
