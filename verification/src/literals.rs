//! Literal values do not matter: two documents that differ only in the
//! integer, float and string literals they hold have the same canonical
//! form and touch the same schema coordinates.

use vstd::prelude::*;
use crate::ast::{
    ArgumentView, DefinitionView, DirectiveView, DocumentView, FragmentView, ObjectFieldView,
    OperationView, SelectionView, TypeView, ValueView, VariableDefinitionView,
};
use crate::coordinates::{
    WalkState, argument_type, directive_arguments, element_type, enter_argument, enter_list,
    enter_object, field_arguments, field_definition, field_target, fragment_target,
    is_plain_scalar, list_element, list_elements, member_type, object_member, object_members,
    schema_coordinates, visit_arguments, visit_definition, visit_definitions, visit_directives,
    visit_items, visit_members, visit_selection, visit_selections, visit_value, visit_variables,
    walk,
};
use crate::normalize::{
    canonical_arguments, canonical_definition_each, canonical_directive_each,
    canonical_directives, canonical_document, canonical_each, canonical_selection,
    canonical_selections, canonical_variable_each, canonical_variables, lemma_canonical_each,
    lemma_strip_value_twice, strip_value, stripped_arguments,
};
use crate::processor::{asks_for_schema, is_introspection, is_introspection_query};
use crate::schema::{FieldDefinitionView, InputValueDefinitionView, SchemaView, TypeDefinitionView};

verus! {

/// A directive with the literals of its arguments replaced.
pub open spec fn plain_directive(d: DirectiveView) -> DirectiveView {
    DirectiveView { name: d.name, arguments: stripped_arguments(d.arguments) }
}

/// The directives of a list with their literals replaced.
pub open spec fn plain_directives(ds: Seq<DirectiveView>) -> Seq<DirectiveView> {
    Seq::new(ds.len(), |i: int| plain_directive(ds[i]))
}

/// A selection with its literals replaced and nothing else changed.
pub open spec fn plain_selection(s: SelectionView) -> SelectionView
    decreases s, 0nat,
{
    match s {
        SelectionView::Field { alias, name, arguments, directives, selection_set } => SelectionView::Field {
            alias,
            name,
            arguments: stripped_arguments(arguments),
            directives: plain_directives(directives),
            selection_set: plain_each(selection_set, selection_set.len()),
        },
        SelectionView::FragmentSpread { fragment_name, directives } => SelectionView::FragmentSpread {
            fragment_name,
            directives: plain_directives(directives),
        },
        SelectionView::InlineFragment { type_condition, directives, selection_set } => SelectionView::InlineFragment {
            type_condition,
            directives: plain_directives(directives),
            selection_set: plain_each(selection_set, selection_set.len()),
        },
    }
}

/// The first `n` selections of a selection set with their literals replaced.
pub open spec fn plain_each(items: Seq<SelectionView>, n: nat) -> Seq<SelectionView>
    decreases items, n,
{
    if n == 0 || n > items.len() {
        Seq::empty()
    } else {
        plain_each(items, (n - 1) as nat).push(plain_selection(items[n - 1]))
    }
}

/// A definition with its literals replaced and nothing else changed.
pub open spec fn plain_definition(d: DefinitionView) -> DefinitionView {
    match d {
        DefinitionView::Operation(op) => DefinitionView::Operation(
            OperationView {
                kind: op.kind,
                name: op.name,
                variable_definitions: canonical_variable_each(op.variable_definitions),
                directives: plain_directives(op.directives),
                selection_set: plain_each(op.selection_set, op.selection_set.len()),
            },
        ),
        DefinitionView::Fragment(f) => DefinitionView::Fragment(
            FragmentView {
                name: f.name,
                type_condition: f.type_condition,
                directives: plain_directives(f.directives),
                selection_set: plain_each(f.selection_set, f.selection_set.len()),
            },
        ),
    }
}

/// The definitions of a list with their literals replaced.
pub open spec fn plain_definitions(ds: Seq<DefinitionView>) -> Seq<DefinitionView> {
    Seq::new(ds.len(), |i: int| plain_definition(ds[i]))
}

/// A document with every integer literal replaced by `0`, every float
/// literal by `0.0` and every string literal by the empty string, and
/// nothing else changed.
pub open spec fn plain_document(d: DocumentView) -> DocumentView {
    DocumentView { definitions: plain_definitions(d.definitions) }
}

/// Two documents differ at most in the integer, float and string literals
/// they hold.
pub open spec fn same_but_for_literals(a: DocumentView, b: DocumentView) -> bool {
    plain_document(a) == plain_document(b)
}

proof fn lemma_plain_each(items: Seq<SelectionView>, n: nat)
    requires
        n <= items.len(),
    ensures
        plain_each(items, n).len() == n,
        forall|i: int| 0 <= i < n ==> #[trigger] plain_each(items, n)[i] == plain_selection(items[i]),
    decreases n,
{
    if n > 0 {
        lemma_plain_each(items, (n - 1) as nat);
    }
}

proof fn lemma_canonical_of_stripped_arguments(args: Seq<ArgumentView>)
    ensures
        canonical_arguments(stripped_arguments(args)) == canonical_arguments(args),
{
    assert forall|i: int| 0 <= i < args.len() implies #[trigger] stripped_arguments(stripped_arguments(args))[i]
        == stripped_arguments(args)[i] by {
        lemma_strip_value_twice(args[i].value);
    }
    assert(stripped_arguments(stripped_arguments(args)) =~= stripped_arguments(args));
}

proof fn lemma_canonical_of_plain_directives(ds: Seq<DirectiveView>)
    ensures
        canonical_directives(plain_directives(ds)) == canonical_directives(ds),
{
    assert forall|i: int| 0 <= i < ds.len() implies #[trigger] canonical_directive_each(plain_directives(ds))[i]
        == canonical_directive_each(ds)[i] by {
        lemma_canonical_of_stripped_arguments(ds[i].arguments);
    }
    assert(canonical_directive_each(plain_directives(ds)) =~= canonical_directive_each(ds));
}

proof fn lemma_canonical_of_plain_variables(vs: Seq<VariableDefinitionView>)
    ensures
        canonical_variables(canonical_variable_each(vs)) == canonical_variables(vs),
{
    assert forall|i: int| 0 <= i < vs.len() implies #[trigger] canonical_variable_each(canonical_variable_each(vs))[i]
        == canonical_variable_each(vs)[i] by {
        match vs[i].default_value {
            Some(d) => {
                lemma_strip_value_twice(d);
            },
            None => {},
        }
    }
    assert(canonical_variable_each(canonical_variable_each(vs)) =~= canonical_variable_each(vs));
}

proof fn lemma_canonical_of_plain_selection(s: SelectionView)
    ensures
        canonical_selection(plain_selection(s)) == canonical_selection(s),
    decreases s, 1nat,
{
    match s {
        SelectionView::Field { alias, name, arguments, directives, selection_set } => {
            lemma_canonical_of_stripped_arguments(arguments);
            lemma_canonical_of_plain_directives(directives);
            lemma_canonical_of_plain_selections(selection_set);
        },
        SelectionView::FragmentSpread { fragment_name, directives } => {
            lemma_canonical_of_plain_directives(directives);
        },
        SelectionView::InlineFragment { type_condition, directives, selection_set } => {
            lemma_canonical_of_plain_directives(directives);
            lemma_canonical_of_plain_selections(selection_set);
        },
    }
}

proof fn lemma_canonical_of_plain_selections(items: Seq<SelectionView>)
    ensures
        canonical_selections(plain_each(items, items.len())) == canonical_selections(items),
    decreases items, 0nat,
{
    let plain = plain_each(items, items.len());
    lemma_plain_each(items, items.len());
    lemma_canonical_each(plain, plain.len());
    lemma_canonical_each(items, items.len());
    assert forall|i: int| 0 <= i < items.len() implies #[trigger] canonical_each(plain, plain.len())[i]
        == canonical_each(items, items.len())[i] by {
        lemma_canonical_of_plain_selection(items[i]);
    }
    assert(canonical_each(plain, plain.len()) =~= canonical_each(items, items.len()));
}

proof fn lemma_canonical_of_plain_document(d: DocumentView)
    ensures
        canonical_document(plain_document(d)) == canonical_document(d),
{
    let ds = d.definitions;
    assert forall|i: int| 0 <= i < ds.len() implies #[trigger] canonical_definition_each(plain_definitions(ds))[i]
        == canonical_definition_each(ds)[i] by {
        match ds[i] {
            DefinitionView::Operation(op) => {
                lemma_canonical_of_plain_variables(op.variable_definitions);
                lemma_canonical_of_plain_directives(op.directives);
                lemma_canonical_of_plain_selections(op.selection_set);
            },
            DefinitionView::Fragment(f) => {
                lemma_canonical_of_plain_directives(f.directives);
                lemma_canonical_of_plain_selections(f.selection_set);
            },
        }
    }
    assert(canonical_definition_each(plain_definitions(ds)) =~= canonical_definition_each(ds));
}

proof fn lemma_strip_keeps_kind(v: ValueView)
    ensures
        is_plain_scalar(strip_value(v)) == is_plain_scalar(v),
        v is Enum ==> strip_value(v) == v,
        strip_value(v) is Enum ==> v is Enum,
        v is Variable ==> strip_value(v) == v,
        v is List == strip_value(v) is List,
        v is Object == strip_value(v) is Object,
{
}

proof fn lemma_list_elements_of_stripped(input: TypeDefinitionView, items: Seq<ValueView>, n: int, st: WalkState)
    requires
        0 <= n <= items.len(),
    ensures
        list_elements(input, strip_value(ValueView::List(items))->List_0, n, st) == list_elements(input, items, n, st),
    decreases n,
{
    if n > 0 {
        lemma_list_elements_of_stripped(input, items, n - 1, st);
        let x = items[n - 1];
        let before = list_elements(input, items, n - 1, st);
        assert(strip_value(ValueView::List(items))->List_0[n - 1] == strip_value(x));
        assert(list_element(input, strip_value(x), before) == list_element(input, x, before)) by {
            lemma_strip_keeps_kind(x);
        }
    }
}

proof fn lemma_object_members_of_stripped(
    input: TypeDefinitionView,
    fields: Seq<ObjectFieldView>,
    n: int,
    st: WalkState,
)
    requires
        0 <= n <= fields.len(),
    ensures
        object_members(input, strip_value(ValueView::Object(fields))->Object_0, n, st) == object_members(
            input,
            fields,
            n,
            st,
        ),
    decreases n,
{
    if n > 0 {
        lemma_object_members_of_stripped(input, fields, n - 1, st);
        let f = fields[n - 1];
        let before = object_members(input, fields, n - 1, st);
        let stripped = strip_value(ValueView::Object(fields))->Object_0[n - 1];
        assert(stripped == ObjectFieldView { name: f.name, value: strip_value(f.value) });
        assert(object_member(input, stripped, before) == object_member(input, f, before)) by {
            lemma_strip_keeps_kind(f.value);
        }
    }
}

proof fn lemma_visit_of_stripped_value(schema: SchemaView, v: ValueView, input: Option<TypeView>, st: WalkState)
    ensures
        visit_value(schema, strip_value(v), input, st) == visit_value(schema, v, input, st),
    decreases v, 1nat,
{
    match v {
        ValueView::List(items) => {
            let stripped = strip_value(v)->List_0;
            match schema.resolve(input) {
                Some(t) => {
                    lemma_list_elements_of_stripped(t, items, items.len() as int, st);
                },
                None => {},
            }
            lemma_visit_of_stripped_items(
                schema,
                items,
                items.len(),
                element_type(input),
                enter_list(schema.resolve(input), items, st),
            );
        },
        ValueView::Object(fields) => {
            match schema.resolve(input) {
                Some(t) => {
                    lemma_object_members_of_stripped(t, fields, fields.len() as int, st);
                },
                None => {},
            }
            lemma_visit_of_stripped_members(
                schema,
                fields,
                fields.len(),
                input,
                enter_object(schema.resolve(input), fields, st),
            );
        },
        _ => {},
    }
}

proof fn lemma_visit_of_stripped_items(
    schema: SchemaView,
    items: Seq<ValueView>,
    n: nat,
    input: Option<TypeView>,
    st: WalkState,
)
    requires
        n <= items.len(),
    ensures
        visit_items(schema, strip_value(ValueView::List(items))->List_0, n, input, st) == visit_items(
            schema,
            items,
            n,
            input,
            st,
        ),
    decreases items, n,
{
    if n > 0 {
        lemma_visit_of_stripped_items(schema, items, (n - 1) as nat, input, st);
        lemma_visit_of_stripped_value(
            schema,
            items[n - 1],
            input,
            visit_items(schema, items, (n - 1) as nat, input, st),
        );
    }
}

proof fn lemma_visit_of_stripped_members(
    schema: SchemaView,
    fields: Seq<ObjectFieldView>,
    n: nat,
    input: Option<TypeView>,
    st: WalkState,
)
    requires
        n <= fields.len(),
    ensures
        visit_members(schema, strip_value(ValueView::Object(fields))->Object_0, n, input, st) == visit_members(
            schema,
            fields,
            n,
            input,
            st,
        ),
    decreases fields, n,
{
    if n > 0 {
        lemma_visit_of_stripped_members(schema, fields, (n - 1) as nat, input, st);
        lemma_visit_of_stripped_value(
            schema,
            fields[n - 1].value,
            member_type(schema, input, fields[n - 1].name),
            visit_members(schema, fields, (n - 1) as nat, input, st),
        );
    }
}

proof fn lemma_visit_of_stripped_arguments(
    schema: SchemaView,
    args: Seq<ArgumentView>,
    n: int,
    defs: Option<Seq<InputValueDefinitionView>>,
    parent: Option<TypeDefinitionView>,
    field: Option<FieldDefinitionView>,
    st: WalkState,
)
    requires
        0 <= n <= args.len(),
    ensures
        visit_arguments(schema, stripped_arguments(args), n, defs, parent, field, st) == visit_arguments(
            schema,
            args,
            n,
            defs,
            parent,
            field,
            st,
        ),
    decreases n,
{
    if n > 0 {
        lemma_visit_of_stripped_arguments(schema, args, n - 1, defs, parent, field, st);
        let arg = args[n - 1];
        let input = argument_type(defs, arg.name);
        let before = visit_arguments(schema, args, n - 1, defs, parent, field, st);
        lemma_visit_of_stripped_value(
            schema,
            arg.value,
            input,
            enter_argument(schema, arg, parent, field, input, before),
        );
    }
}

proof fn lemma_visit_of_plain_directives(
    schema: SchemaView,
    ds: Seq<DirectiveView>,
    n: int,
    parent: Option<TypeDefinitionView>,
    field: Option<FieldDefinitionView>,
    st: WalkState,
)
    requires
        0 <= n <= ds.len(),
    ensures
        visit_directives(schema, plain_directives(ds), n, parent, field, st) == visit_directives(
            schema,
            ds,
            n,
            parent,
            field,
            st,
        ),
    decreases n,
{
    if n > 0 {
        lemma_visit_of_plain_directives(schema, ds, n - 1, parent, field, st);
        let d = ds[n - 1];
        lemma_visit_of_stripped_arguments(
            schema,
            d.arguments,
            d.arguments.len() as int,
            directive_arguments(schema, d.name),
            parent,
            field,
            visit_directives(schema, ds, n - 1, parent, field, st),
        );
    }
}

proof fn lemma_visit_of_plain_selection(
    schema: SchemaView,
    s: SelectionView,
    parent: Option<TypeDefinitionView>,
    field: Option<FieldDefinitionView>,
    st: WalkState,
)
    ensures
        visit_selection(schema, plain_selection(s), parent, field, st) == visit_selection(
            schema,
            s,
            parent,
            field,
            st,
        ),
    decreases s, 1nat,
{
    match s {
        SelectionView::Field { alias, name, arguments, directives, selection_set } => {
            let fd = field_definition(parent, name);
            let st1 = crate::coordinates::enter_field(schema, name, parent, st);
            lemma_visit_of_stripped_arguments(
                schema,
                arguments,
                arguments.len() as int,
                field_arguments(fd),
                parent,
                fd,
                st1,
            );
            let st2 = visit_arguments(schema, arguments, arguments.len() as int, field_arguments(fd), parent, fd, st1);
            lemma_visit_of_plain_directives(schema, directives, directives.len() as int, parent, fd, st2);
            let st3 = visit_directives(schema, directives, directives.len() as int, parent, fd, st2);
            lemma_plain_each(selection_set, selection_set.len());
            lemma_visit_of_plain_selections(
                schema,
                selection_set,
                selection_set.len(),
                field_target(schema, fd),
                fd,
                st3,
            );
        },
        SelectionView::FragmentSpread { fragment_name, directives } => {
            lemma_visit_of_plain_directives(schema, directives, directives.len() as int, parent, field, st);
        },
        SelectionView::InlineFragment { type_condition, directives, selection_set } => {
            lemma_visit_of_plain_directives(schema, directives, directives.len() as int, parent, field, st);
            let st1 = visit_directives(schema, directives, directives.len() as int, parent, field, st);
            lemma_plain_each(selection_set, selection_set.len());
            lemma_visit_of_plain_selections(
                schema,
                selection_set,
                selection_set.len(),
                fragment_target(schema, type_condition, parent),
                field,
                st1,
            );
        },
    }
}

proof fn lemma_visit_of_plain_selections(
    schema: SchemaView,
    items: Seq<SelectionView>,
    n: nat,
    parent: Option<TypeDefinitionView>,
    field: Option<FieldDefinitionView>,
    st: WalkState,
)
    requires
        n <= items.len(),
    ensures
        visit_selections(schema, plain_each(items, items.len()), n, parent, field, st) == visit_selections(
            schema,
            items,
            n,
            parent,
            field,
            st,
        ),
    decreases items, n,
{
    lemma_plain_each(items, items.len());
    if n > 0 {
        lemma_visit_of_plain_selections(schema, items, (n - 1) as nat, parent, field, st);
        lemma_visit_of_plain_selection(
            schema,
            items[n - 1],
            parent,
            field,
            visit_selections(schema, items, (n - 1) as nat, parent, field, st),
        );
    }
}

proof fn lemma_visit_of_plain_variables(schema: SchemaView, vs: Seq<VariableDefinitionView>, n: int, st: WalkState)
    requires
        0 <= n <= vs.len(),
    ensures
        visit_variables(schema, canonical_variable_each(vs), n, st) == visit_variables(schema, vs, n, st),
    decreases n,
{
    if n > 0 {
        lemma_visit_of_plain_variables(schema, vs, n - 1, st);
        let var = vs[n - 1];
        match var.default_value {
            Some(v) => {
                lemma_visit_of_stripped_value(
                    schema,
                    v,
                    Some(var.var_type),
                    crate::coordinates::enter_variable(schema, var, visit_variables(schema, vs, n - 1, st)),
                );
            },
            None => {},
        }
    }
}

proof fn lemma_visit_of_plain_definition(schema: SchemaView, d: DefinitionView, st: WalkState)
    ensures
        visit_definition(schema, plain_definition(d), st) == visit_definition(schema, d, st),
{
    match d {
        DefinitionView::Operation(op) => {
            lemma_visit_of_plain_directives(schema, op.directives, op.directives.len() as int, None, None, st);
            let st1 = visit_directives(schema, op.directives, op.directives.len() as int, None, None, st);
            lemma_visit_of_plain_variables(
                schema,
                op.variable_definitions,
                op.variable_definitions.len() as int,
                st1,
            );
            let st2 = visit_variables(schema, op.variable_definitions, op.variable_definitions.len() as int, st1);
            lemma_plain_each(op.selection_set, op.selection_set.len());
            lemma_visit_of_plain_selections(
                schema,
                op.selection_set,
                op.selection_set.len(),
                schema.root_type(op.kind),
                None,
                st2,
            );
        },
        DefinitionView::Fragment(f) => {
            lemma_visit_of_plain_directives(schema, f.directives, f.directives.len() as int, None, None, st);
            let st1 = visit_directives(schema, f.directives, f.directives.len() as int, None, None, st);
            lemma_plain_each(f.selection_set, f.selection_set.len());
            lemma_visit_of_plain_selections(
                schema,
                f.selection_set,
                f.selection_set.len(),
                schema.type_by_name(f.type_condition),
                None,
                st1,
            );
        },
    }
}

proof fn lemma_visit_of_plain_definitions(schema: SchemaView, ds: Seq<DefinitionView>, n: int, st: WalkState)
    requires
        0 <= n <= ds.len(),
    ensures
        visit_definitions(schema, plain_definitions(ds), n, st) == visit_definitions(schema, ds, n, st),
    decreases n,
{
    if n > 0 {
        lemma_visit_of_plain_definitions(schema, ds, n - 1, st);
        lemma_visit_of_plain_definition(schema, ds[n - 1], visit_definitions(schema, ds, n - 1, st));
    }
}

proof fn lemma_introspection_of_plain_definition(d: DefinitionView)
    ensures
        is_introspection_query(plain_definition(d)) == is_introspection_query(d),
{
    match d {
        DefinitionView::Operation(op) => {
            let set = op.selection_set;
            let plain = plain_each(set, set.len());
            lemma_plain_each(set, set.len());
            assert(plain_definition(d)->Operation_0.selection_set == plain);
            assert(plain_definition(d)->Operation_0.kind == op.kind);
            if is_introspection_query(d) {
                let k = choose|k: int| 0 <= k < set.len() && asks_for_schema(#[trigger] set[k]);
                assert(plain[k] == plain_selection(set[k]));
                assert(asks_for_schema(plain[k]));
                assert(is_introspection_query(plain_definition(d)));
            }
            if is_introspection_query(plain_definition(d)) {
                let k = choose|k: int| 0 <= k < plain.len() && asks_for_schema(#[trigger] plain[k]);
                assert(plain[k] == plain_selection(set[k]));
                assert(asks_for_schema(set[k]));
                assert(is_introspection_query(d));
            }
        },
        DefinitionView::Fragment(_) => {},
    }
}

proof fn lemma_introspection_of_plain_document(d: DocumentView)
    ensures
        is_introspection(plain_document(d)) == is_introspection(d),
{
    let p = plain_document(d);
    assert forall|i: int| 0 <= i < d.definitions.len() implies is_introspection_query(#[trigger] p.definitions[i])
        == is_introspection_query(d.definitions[i]) by {
        assert(p.definitions[i] == plain_definition(d.definitions[i]));
        lemma_introspection_of_plain_definition(d.definitions[i]);
    }
    if is_introspection(d) {
        let i = choose|i: int| 0 <= i < d.definitions.len() && is_introspection_query(#[trigger] d.definitions[i]);
        assert(is_introspection_query(p.definitions[i]));
    }
    if is_introspection(p) {
        let i = choose|i: int| 0 <= i < p.definitions.len() && is_introspection_query(#[trigger] p.definitions[i]);
        assert(is_introspection_query(d.definitions[i]));
    }
}

/// Literal values are discarded: two documents that differ at most in the
/// integer, float and string literals they hold are both introspection
/// queries or both not, have the same canonical form, and touch the same
/// schema coordinates or fail the coordinate walk alike.
pub proof fn lemma_literals_do_not_matter(a: DocumentView, b: DocumentView, schema: SchemaView)
    requires
        same_but_for_literals(a, b),
    ensures
        is_introspection(a) == is_introspection(b),
        canonical_document(a) == canonical_document(b),
        schema_coordinates(a, schema) == schema_coordinates(b, schema),
{
    lemma_introspection_of_plain_document(a);
    lemma_introspection_of_plain_document(b);
    lemma_canonical_of_plain_document(a);
    lemma_canonical_of_plain_document(b);
    lemma_visit_of_plain_definitions(schema, a.definitions, a.definitions.len() as int, WalkState::start());
    lemma_visit_of_plain_definitions(schema, b.definitions, b.definitions.len() as int, WalkState::start());
    assert(walk(plain_document(a), schema) == walk(a, schema));
    assert(walk(plain_document(b), schema) == walk(b, schema));
}

} // verus!
