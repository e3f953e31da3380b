//! The canonical form of a document: literal values are replaced by the
//! zero of their kind, field aliases are dropped, and definitions,
//! selections, arguments, directives and variable definitions are put in
//! canonical order.

use vstd::prelude::*;
use crate::ast::{
    Argument, ArgumentView, Definition, DefinitionView, Directive, DirectiveView, Document,
    DocumentView, Fragment, FragmentView, ObjectField, ObjectFieldView, Operation, OperationView,
    Selection, SelectionView, Type, Value, ValueView, VariableDefinition, VariableDefinitionView,
    Wrapper, lemma_selection_children, lemma_value_children,
};
use crate::ordering::{Keyed, SortKey, Sortable, sort_stable, sorted, text_before};
use crate::text::{opt_view, views};

verus! {

impl Keyed for ArgumentView {
    open spec fn sort_key(&self) -> SortKey {
        SortKey { rank: 0, name: self.name }
    }
}

impl Keyed for DirectiveView {
    open spec fn sort_key(&self) -> SortKey {
        SortKey { rank: 0, name: self.name }
    }
}

impl Keyed for VariableDefinitionView {
    open spec fn sort_key(&self) -> SortKey {
        SortKey { rank: 0, name: self.name }
    }
}

impl Keyed for SelectionView {
    /// Fragment spreads come first, by fragment name; then inline
    /// fragments, in the order they have; then fields, by name.
    open spec fn sort_key(&self) -> SortKey {
        match self {
            SelectionView::FragmentSpread { fragment_name, .. } => SortKey { rank: 1, name: *fragment_name },
            SelectionView::InlineFragment { .. } => SortKey { rank: 2, name: Seq::empty() },
            SelectionView::Field { name, .. } => SortKey { rank: 3, name: *name },
        }
    }
}

impl Keyed for DefinitionView {
    /// Operations come first, in the order they have; then fragments, by name.
    open spec fn sort_key(&self) -> SortKey {
        match self {
            DefinitionView::Operation(_) => SortKey { rank: 1, name: Seq::empty() },
            DefinitionView::Fragment(f) => SortKey { rank: 2, name: f.name },
        }
    }
}

impl Sortable for Argument {
    fn comes_before(&self, other: &Self) -> (r: bool) {
        text_before(self.name.as_str(), other.name.as_str())
    }
}

impl Sortable for Directive {
    fn comes_before(&self, other: &Self) -> (r: bool) {
        text_before(self.name.as_str(), other.name.as_str())
    }
}

impl Sortable for VariableDefinition {
    fn comes_before(&self, other: &Self) -> (r: bool) {
        text_before(self.name.as_str(), other.name.as_str())
    }
}

impl Sortable for Selection {
    fn comes_before(&self, other: &Self) -> (r: bool) {
        match (self, other) {
            (Selection::Field { name: a, .. }, Selection::Field { name: b, .. }) => text_before(
                a.as_str(),
                b.as_str(),
            ),
            (
                Selection::FragmentSpread { fragment_name: a, .. },
                Selection::FragmentSpread { fragment_name: b, .. },
            ) => text_before(a.as_str(), b.as_str()),
            (Selection::InlineFragment { .. }, Selection::InlineFragment { .. }) => false,
            (Selection::FragmentSpread { .. }, _) => true,
            (Selection::InlineFragment { .. }, Selection::Field { .. }) => true,
            _ => false,
        }
    }
}

impl Sortable for Definition {
    fn comes_before(&self, other: &Self) -> (r: bool) {
        match (self, other) {
            (Definition::Operation(_), Definition::Operation(_)) => false,
            (Definition::Fragment(a), Definition::Fragment(b)) => text_before(a.name.as_str(), b.name.as_str()),
            (Definition::Operation(_), Definition::Fragment(_)) => true,
            (Definition::Fragment(_), Definition::Operation(_)) => false,
        }
    }
}

/// A value with every literal replaced: an integer by `0`, a float by
/// `0.0`, a string by the empty string, inside lists and objects too.
/// Booleans, `null`, enum values and variables stay.
pub open spec fn strip_value(v: ValueView) -> ValueView
    decreases v,
{
    match v {
        ValueView::Int(_) => ValueView::Int(0),
        ValueView::Float(_) => ValueView::Float(0),
        ValueView::String(_) => ValueView::String(Seq::empty()),
        ValueView::List(items) => ValueView::List(
            Seq::new(
                items.len(),
                |i: int|
                    if 0 <= i < items.len() {
                        strip_value(items[i])
                    } else {
                        ValueView::Null
                    },
            ),
        ),
        ValueView::Object(fields) => ValueView::Object(
            Seq::new(
                fields.len(),
                |i: int|
                    if 0 <= i < fields.len() {
                        ObjectFieldView { name: fields[i].name, value: strip_value(fields[i].value) }
                    } else {
                        ObjectFieldView { name: Seq::empty(), value: ValueView::Null }
                    },
            ),
        ),
        _ => v,
    }
}

/// An argument with its value stripped.
pub open spec fn strip_argument(a: ArgumentView) -> ArgumentView {
    ArgumentView { name: a.name, value: strip_value(a.value) }
}

/// The arguments of a list with their values stripped, in the order they have.
pub open spec fn stripped_arguments(args: Seq<ArgumentView>) -> Seq<ArgumentView> {
    Seq::new(args.len(), |i: int| strip_argument(args[i]))
}

/// The canonical form of a list of arguments: stripped, and in order of name.
pub open spec fn canonical_arguments(args: Seq<ArgumentView>) -> Seq<ArgumentView> {
    sorted(stripped_arguments(args))
}

/// The canonical form of a directive.
pub open spec fn canonical_directive(d: DirectiveView) -> DirectiveView {
    DirectiveView { name: d.name, arguments: canonical_arguments(d.arguments) }
}

/// The canonical forms of the directives of a list, in the order they have.
pub open spec fn canonical_directive_each(ds: Seq<DirectiveView>) -> Seq<DirectiveView> {
    Seq::new(ds.len(), |i: int| canonical_directive(ds[i]))
}

/// The canonical form of a list of directives, in order of name.
pub open spec fn canonical_directives(ds: Seq<DirectiveView>) -> Seq<DirectiveView> {
    sorted(canonical_directive_each(ds))
}

/// The canonical form of a variable definition.
pub open spec fn canonical_variable(v: VariableDefinitionView) -> VariableDefinitionView {
    VariableDefinitionView {
        name: v.name,
        var_type: v.var_type,
        default_value: match v.default_value {
            Some(d) => Some(strip_value(d)),
            None => None,
        },
    }
}

/// The canonical forms of the variable definitions of a list, in the order
/// they have.
pub open spec fn canonical_variable_each(vs: Seq<VariableDefinitionView>) -> Seq<VariableDefinitionView> {
    Seq::new(vs.len(), |i: int| canonical_variable(vs[i]))
}

/// The canonical form of a list of variable definitions, in order of name.
pub open spec fn canonical_variables(vs: Seq<VariableDefinitionView>) -> Seq<VariableDefinitionView> {
    sorted(canonical_variable_each(vs))
}

/// The canonical form of a selection. A field loses its alias.
pub open spec fn canonical_selection(s: SelectionView) -> SelectionView
    decreases s, 0nat,
{
    match s {
        SelectionView::Field { alias, name, arguments, directives, selection_set } => SelectionView::Field {
            alias: None,
            name,
            arguments: canonical_arguments(arguments),
            directives: canonical_directives(directives),
            selection_set: sorted(canonical_each(selection_set, selection_set.len())),
        },
        SelectionView::FragmentSpread { fragment_name, directives } => SelectionView::FragmentSpread {
            fragment_name,
            directives: canonical_directives(directives),
        },
        SelectionView::InlineFragment { type_condition, directives, selection_set } => SelectionView::InlineFragment {
            type_condition,
            directives: canonical_directives(directives),
            selection_set: sorted(canonical_each(selection_set, selection_set.len())),
        },
    }
}

/// The canonical forms of the first `n` selections of a selection set, in
/// the order the selections have.
pub open spec fn canonical_each(items: Seq<SelectionView>, n: nat) -> Seq<SelectionView>
    decreases items, n,
{
    if n == 0 || n > items.len() {
        Seq::empty()
    } else {
        canonical_each(items, (n - 1) as nat).push(canonical_selection(items[n - 1]))
    }
}

/// The canonical form of a selection set.
pub open spec fn canonical_selections(items: Seq<SelectionView>) -> Seq<SelectionView> {
    sorted(canonical_each(items, items.len()))
}

/// The canonical form of a definition.
pub open spec fn canonical_definition(d: DefinitionView) -> DefinitionView {
    match d {
        DefinitionView::Operation(op) => DefinitionView::Operation(
            OperationView {
                kind: op.kind,
                name: op.name,
                variable_definitions: canonical_variables(op.variable_definitions),
                directives: canonical_directives(op.directives),
                selection_set: canonical_selections(op.selection_set),
            },
        ),
        DefinitionView::Fragment(f) => DefinitionView::Fragment(
            FragmentView {
                name: f.name,
                type_condition: f.type_condition,
                directives: canonical_directives(f.directives),
                selection_set: canonical_selections(f.selection_set),
            },
        ),
    }
}

/// The canonical forms of the definitions of a list, in the order they have.
pub open spec fn canonical_definition_each(ds: Seq<DefinitionView>) -> Seq<DefinitionView> {
    Seq::new(ds.len(), |i: int| canonical_definition(ds[i]))
}

/// The canonical form of a document.
pub open spec fn canonical_document(d: DocumentView) -> DocumentView {
    DocumentView { definitions: sorted(canonical_definition_each(d.definitions)) }
}

/// The canonical forms of the first `n` selections, entry by entry.
pub proof fn lemma_canonical_each(items: Seq<SelectionView>, n: nat)
    requires
        n <= items.len(),
    ensures
        canonical_each(items, n).len() == n,
        forall|i: int| 0 <= i < n ==> #[trigger] canonical_each(items, n)[i] == canonical_selection(items[i]),
    decreases n,
{
    if n > 0 {
        lemma_canonical_each(items, (n - 1) as nat);
    }
}

/// A copy of a type reference.
pub fn copy_type(t: &Type) -> (r: Type)
    ensures
        r@ == t@,
{
    let mut wrappers: Vec<Wrapper> = Vec::new();
    let mut i: usize = 0;
    while i < t.wrappers.len()
        invariant
            i <= t.wrappers.len(),
            wrappers@ == t.wrappers@.take(i as int),
        decreases t.wrappers.len() - i,
    {
        wrappers.push(t.wrappers[i]);
        assert(wrappers@ =~= t.wrappers@.take(i + 1));
        i += 1;
    }
    assert(wrappers@ =~= t.wrappers@);
    Type { name: t.name.clone(), wrappers }
}

/// A copy of an optional string.
pub fn copy_text(o: &Option<String>) -> (r: Option<String>)
    ensures
        opt_view(r) == opt_view(*o),
{
    match o {
        Some(s) => Some(s.clone()),
        None => None,
    }
}

/// The value with every literal replaced by the zero of its kind.
#[verifier::loop_isolation(false)]
pub fn strip_literals(value: &Value) -> (r: Value)
    ensures
        r@ == strip_value(value@),
    decreases value,
{
    proof {
        lemma_value_children(*value);
    }
    match value {
        Value::Int(_) => Value::Int(0),
        Value::Float(_) => Value::Float(0),
        Value::String(_) => Value::String(String::new()),
        Value::Variable(name) => Value::Variable(name.clone()),
        Value::Boolean(flag) => Value::Boolean(*flag),
        Value::Null => Value::Null,
        Value::Enum(name) => Value::Enum(name.clone()),
        Value::List(items) => {
            let mut out: Vec<Value> = Vec::new();
            let mut i: usize = 0;
            while i < items.len()
                invariant
                    i <= items.len(),
                    out@.len() == i,
                    forall|j: int| 0 <= j < i ==> (#[trigger] out@[j])@ == strip_value(items@[j]@),
                decreases items.len() - i,
            {
                out.push(strip_literals(&items[i]));
                i += 1;
            }
            let r = Value::List(out);
            proof {
                lemma_value_children(r);
                assert(r@->List_0 =~= strip_value(value@)->List_0);
            }
            r
        },
        Value::Object(fields) => {
            let mut out: Vec<ObjectField> = Vec::new();
            let mut i: usize = 0;
            while i < fields.len()
                invariant
                    i <= fields.len(),
                    out@.len() == i,
                    forall|j: int|
                        0 <= j < i ==> (#[trigger] out@[j]).value@ == strip_value(fields@[j].value@) && out@[j].name@
                            == fields@[j].name@,
                decreases fields.len() - i,
            {
                let stripped = strip_literals(&fields[i].value);
                out.push(ObjectField { name: fields[i].name.clone(), value: stripped });
                i += 1;
            }
            let r = Value::Object(out);
            proof {
                lemma_value_children(r);
                assert(r@->Object_0 =~= strip_value(value@)->Object_0);
            }
            r
        },
    }
}

/// The canonical form of a list of arguments.
pub fn normalize_arguments(arguments: &Vec<Argument>) -> (r: Vec<Argument>)
    ensures
        views(r@) == canonical_arguments(views(arguments@)),
{
    let mut out: Vec<Argument> = Vec::new();
    let mut i: usize = 0;
    while i < arguments.len()
        invariant
            i <= arguments.len(),
            out@.len() == i,
            forall|j: int| 0 <= j < i ==> (#[trigger] out@[j])@ == strip_argument(arguments@[j]@),
        decreases arguments.len() - i,
    {
        let a = &arguments[i];
        out.push(Argument { name: a.name.clone(), value: strip_literals(&a.value) });
        i += 1;
    }
    assert(views(out@) =~= stripped_arguments(views(arguments@)));
    sort_stable(out)
}

/// The canonical form of a list of directives.
pub fn normalize_directives(directives: &Vec<Directive>) -> (r: Vec<Directive>)
    ensures
        views(r@) == canonical_directives(views(directives@)),
{
    let mut out: Vec<Directive> = Vec::new();
    let mut i: usize = 0;
    while i < directives.len()
        invariant
            i <= directives.len(),
            out@.len() == i,
            forall|j: int| 0 <= j < i ==> (#[trigger] out@[j])@ == canonical_directive(directives@[j]@),
        decreases directives.len() - i,
    {
        let d = &directives[i];
        out.push(Directive { name: d.name.clone(), arguments: normalize_arguments(&d.arguments) });
        i += 1;
    }
    assert(views(out@) =~= canonical_directive_each(views(directives@)));
    sort_stable(out)
}

/// The canonical form of a list of variable definitions.
pub fn normalize_variables(variables: &Vec<VariableDefinition>) -> (r: Vec<VariableDefinition>)
    ensures
        views(r@) == canonical_variables(views(variables@)),
{
    let mut out: Vec<VariableDefinition> = Vec::new();
    let mut i: usize = 0;
    while i < variables.len()
        invariant
            i <= variables.len(),
            out@.len() == i,
            forall|j: int| 0 <= j < i ==> (#[trigger] out@[j])@ == canonical_variable(variables@[j]@),
        decreases variables.len() - i,
    {
        let v = &variables[i];
        out.push(
            VariableDefinition {
                name: v.name.clone(),
                var_type: copy_type(&v.var_type),
                default_value: match &v.default_value {
                    Some(d) => Some(strip_literals(d)),
                    None => None,
                },
            },
        );
        i += 1;
    }
    assert(views(out@) =~= canonical_variable_each(views(variables@)));
    sort_stable(out)
}

/// The canonical form of a selection.
#[verifier::loop_isolation(false)]
pub fn normalize_selection(selection: &Selection) -> (r: Selection)
    ensures
        r@ == canonical_selection(selection@),
    decreases selection,
{
    proof {
        lemma_selection_children(*selection);
    }
    match selection {
        Selection::Field { alias, name, arguments, directives, selection_set } => {
            let mut out: Vec<Selection> = Vec::new();
            let mut i: usize = 0;
            assert(views(out@) =~= canonical_each(views(selection_set@), 0));
            while i < selection_set.len()
                invariant
                    i <= selection_set.len(),
                    views(out@) == canonical_each(views(selection_set@), i as nat),
                decreases selection_set.len() - i,
            {
                let ghost before = views(out@);
                out.push(normalize_selection(&selection_set[i]));
                assert(views(out@) =~= before.push(canonical_selection(selection_set@[i as int]@)));
                i += 1;
            }
            let r = Selection::Field {
                alias: None,
                name: name.clone(),
                arguments: normalize_arguments(arguments),
                directives: normalize_directives(directives),
                selection_set: sort_stable(out),
            };
            proof {
                lemma_selection_children(r);
            }
            r
        },
        Selection::FragmentSpread { fragment_name, directives } => Selection::FragmentSpread {
            fragment_name: fragment_name.clone(),
            directives: normalize_directives(directives),
        },
        Selection::InlineFragment { type_condition, directives, selection_set } => {
            let mut out: Vec<Selection> = Vec::new();
            let mut i: usize = 0;
            assert(views(out@) =~= canonical_each(views(selection_set@), 0));
            while i < selection_set.len()
                invariant
                    i <= selection_set.len(),
                    views(out@) == canonical_each(views(selection_set@), i as nat),
                decreases selection_set.len() - i,
            {
                let ghost before = views(out@);
                out.push(normalize_selection(&selection_set[i]));
                assert(views(out@) =~= before.push(canonical_selection(selection_set@[i as int]@)));
                i += 1;
            }
            let r = Selection::InlineFragment {
                type_condition: copy_text(type_condition),
                directives: normalize_directives(directives),
                selection_set: sort_stable(out),
            };
            proof {
                lemma_selection_children(r);
            }
            r
        },
    }
}

/// The canonical form of a selection set.
pub fn normalize_selections(items: &Vec<Selection>) -> (r: Vec<Selection>)
    ensures
        views(r@) == canonical_selections(views(items@)),
{
    let mut out: Vec<Selection> = Vec::new();
    let mut i: usize = 0;
    assert(views(out@) =~= canonical_each(views(items@), 0));
    while i < items.len()
        invariant
            i <= items.len(),
            views(out@) == canonical_each(views(items@), i as nat),
        decreases items.len() - i,
    {
        let ghost before = views(out@);
        out.push(normalize_selection(&items[i]));
        assert(views(out@) =~= before.push(canonical_selection(items@[i as int]@)));
        i += 1;
    }
    sort_stable(out)
}

/// The canonical form of a definition.
pub fn normalize_definition(definition: &Definition) -> (r: Definition)
    ensures
        r@ == canonical_definition(definition@),
{
    match definition {
        Definition::Operation(op) => Definition::Operation(
            Operation {
                kind: op.kind,
                name: copy_text(&op.name),
                variable_definitions: normalize_variables(&op.variable_definitions),
                directives: normalize_directives(&op.directives),
                selection_set: normalize_selections(&op.selection_set),
            },
        ),
        Definition::Fragment(f) => Definition::Fragment(
            Fragment {
                name: f.name.clone(),
                type_condition: f.type_condition.clone(),
                directives: normalize_directives(&f.directives),
                selection_set: normalize_selections(&f.selection_set),
            },
        ),
    }
}

/// The canonical form of a document.
pub fn normalize_document(document: &Document) -> (r: Document)
    ensures
        r@ == canonical_document(document@),
{
    let mut out: Vec<Definition> = Vec::new();
    let mut i: usize = 0;
    while i < document.definitions.len()
        invariant
            i <= document.definitions.len(),
            out@.len() == i,
            forall|j: int| 0 <= j < i ==> (#[trigger] out@[j])@ == canonical_definition(document.definitions@[j]@),
        decreases document.definitions.len() - i,
    {
        out.push(normalize_definition(&document.definitions[i]));
        i += 1;
    }
    assert(views(out@) =~= canonical_definition_each(document@.definitions));
    Document { definitions: sort_stable(out) }
}

/// Stripping a stripped value changes nothing.
pub proof fn lemma_strip_value_twice(v: ValueView)
    ensures
        strip_value(strip_value(v)) == strip_value(v),
    decreases v,
{
    match v {
        ValueView::List(items) => {
            let once = strip_value(v)->List_0;
            assert forall|i: int| 0 <= i < items.len() implies strip_value(#[trigger] once[i]) == once[i] by {
                lemma_strip_value_twice(items[i]);
            }
            assert(strip_value(strip_value(v))->List_0 =~= once);
        },
        ValueView::Object(fields) => {
            let once = strip_value(v)->Object_0;
            assert forall|i: int| 0 <= i < fields.len() implies strip_value((#[trigger] once[i]).value) == once[i].value by {
                lemma_strip_value_twice(fields[i].value);
            }
            assert(strip_value(strip_value(v))->Object_0 =~= once);
        },
        _ => {},
    }
}

/// Where every entry of a list is left as it is by `f`, and `f` changes no
/// key, the list sorted is left as it is by `f` applied to each entry and
/// another sort.
pub proof fn lemma_sorted_list_stays<T: Keyed>(m: Seq<T>, again: Seq<T>)
    requires
        again.len() == m.len(),
        forall|k: int| 0 <= k < m.len() ==> #[trigger] again[k] == sorted(m)[k],
    ensures
        sorted(again) == sorted(m),
{
    crate::ordering::lemma_sorted(m);
    assert(again =~= sorted(m));
    crate::ordering::lemma_sorted_twice(m);
}

/// The canonical form of canonical arguments is the arguments themselves.
pub proof fn lemma_canonical_arguments_twice(args: Seq<ArgumentView>)
    ensures
        canonical_arguments(canonical_arguments(args)) == canonical_arguments(args),
{
    let m = stripped_arguments(args);
    let once = sorted(m);
    crate::ordering::lemma_sorted_entries(m);
    let again = stripped_arguments(once);
    assert forall|k: int| 0 <= k < m.len() implies #[trigger] again[k] == once[k] by {
        let j = choose|j: int| 0 <= j < m.len() && once[k] == #[trigger] m[j];
        lemma_strip_value_twice(args[j].value);
    }
    lemma_sorted_list_stays(m, again);
}

/// The canonical form of a canonical directive is the directive itself.
pub proof fn lemma_canonical_directive_twice(d: DirectiveView)
    ensures
        canonical_directive(canonical_directive(d)) == canonical_directive(d),
{
    lemma_canonical_arguments_twice(d.arguments);
}

/// The canonical form of canonical directives is the directives themselves.
pub proof fn lemma_canonical_directives_twice(ds: Seq<DirectiveView>)
    ensures
        canonical_directives(canonical_directives(ds)) == canonical_directives(ds),
{
    let m = canonical_directive_each(ds);
    let once = sorted(m);
    crate::ordering::lemma_sorted_entries(m);
    let again = canonical_directive_each(once);
    assert forall|k: int| 0 <= k < m.len() implies #[trigger] again[k] == once[k] by {
        let j = choose|j: int| 0 <= j < m.len() && once[k] == #[trigger] m[j];
        lemma_canonical_directive_twice(ds[j]);
    }
    lemma_sorted_list_stays(m, again);
}

/// The canonical form of canonical variable definitions is the definitions
/// themselves.
pub proof fn lemma_canonical_variables_twice(vs: Seq<VariableDefinitionView>)
    ensures
        canonical_variables(canonical_variables(vs)) == canonical_variables(vs),
{
    let m = canonical_variable_each(vs);
    let once = sorted(m);
    crate::ordering::lemma_sorted_entries(m);
    let again = canonical_variable_each(once);
    assert forall|k: int| 0 <= k < m.len() implies #[trigger] again[k] == once[k] by {
        let j = choose|j: int| 0 <= j < m.len() && once[k] == #[trigger] m[j];
        match vs[j].default_value {
            Some(d) => {
                lemma_strip_value_twice(d);
            },
            None => {},
        }
    }
    lemma_sorted_list_stays(m, again);
}

/// The canonical form of a canonical selection is the selection itself.
pub proof fn lemma_canonical_selection_twice(s: SelectionView)
    ensures
        canonical_selection(canonical_selection(s)) == canonical_selection(s),
    decreases s, 1nat,
{
    match s {
        SelectionView::Field { alias, name, arguments, directives, selection_set } => {
            lemma_canonical_arguments_twice(arguments);
            lemma_canonical_directives_twice(directives);
            lemma_canonical_selections_twice(selection_set);
        },
        SelectionView::FragmentSpread { fragment_name, directives } => {
            lemma_canonical_directives_twice(directives);
        },
        SelectionView::InlineFragment { type_condition, directives, selection_set } => {
            lemma_canonical_directives_twice(directives);
            lemma_canonical_selections_twice(selection_set);
        },
    }
}

/// The canonical form of a canonical selection set is the set itself.
pub proof fn lemma_canonical_selections_twice(items: Seq<SelectionView>)
    ensures
        canonical_selections(canonical_selections(items)) == canonical_selections(items),
    decreases items, 0nat,
{
    let m = canonical_each(items, items.len());
    lemma_canonical_each(items, items.len());
    let once = sorted(m);
    crate::ordering::lemma_sorted_entries(m);
    let again = canonical_each(once, once.len());
    lemma_canonical_each(once, once.len());
    assert forall|k: int| 0 <= k < m.len() implies #[trigger] again[k] == once[k] by {
        let j = choose|j: int| 0 <= j < m.len() && once[k] == #[trigger] m[j];
        lemma_canonical_selection_twice(items[j]);
    }
    lemma_sorted_list_stays(m, again);
}

/// The canonical form of a canonical definition is the definition itself.
pub proof fn lemma_canonical_definition_twice(d: DefinitionView)
    ensures
        canonical_definition(canonical_definition(d)) == canonical_definition(d),
{
    match d {
        DefinitionView::Operation(op) => {
            lemma_canonical_variables_twice(op.variable_definitions);
            lemma_canonical_directives_twice(op.directives);
            lemma_canonical_selections_twice(op.selection_set);
        },
        DefinitionView::Fragment(f) => {
            lemma_canonical_directives_twice(f.directives);
            lemma_canonical_selections_twice(f.selection_set);
        },
    }
}

/// Canonicalization is a fixed point: the canonical form of a canonical
/// document is the document itself.
pub proof fn lemma_canonical_document_twice(d: DocumentView)
    ensures
        canonical_document(canonical_document(d)) == canonical_document(d),
{
    let m = canonical_definition_each(d.definitions);
    let once = sorted(m);
    crate::ordering::lemma_sorted_entries(m);
    let again = canonical_definition_each(once);
    assert forall|k: int| 0 <= k < m.len() implies #[trigger] again[k] == once[k] by {
        let j = choose|j: int| 0 <= j < m.len() && once[k] == #[trigger] m[j];
        lemma_canonical_definition_twice(d.definitions[j]);
    }
    lemma_sorted_list_stays(m, again);
}

} // verus!
