//! The abstract syntax tree of a GraphQL operation document, as plain values,
//! together with the mathematical view of every node.

use vstd::prelude::*;
use crate::text::{opt_view, views};

verus! {

/// A list or non-null marker around a named type.
#[derive(Clone, Copy, Debug, PartialEq, Eq, Structural)]
pub enum Wrapper {
    List,
    NonNull,
}

/// A type reference as it is written in a document or a schema: the named
/// type and the markers around it, outermost first. `[Int!]!` is the name
/// `Int` with the markers non-null, list, non-null.
#[derive(Debug, PartialEq, Eq)]
pub struct Type {
    pub name: String,
    pub wrappers: Vec<Wrapper>,
}

/// The view of a type.
pub struct TypeView {
    pub name: Seq<char>,
    pub wrappers: Seq<Wrapper>,
}

impl View for Type {
    type V = TypeView;

    open spec fn view(&self) -> TypeView {
        TypeView { name: self.name@, wrappers: self.wrappers@ }
    }
}

impl TypeView {
    /// The markers that are left once one outer non-null marker is removed.
    pub open spec fn nullable_wrappers(self) -> Seq<Wrapper> {
        if self.wrappers.len() > 0 && self.wrappers[0] == Wrapper::NonNull {
            self.wrappers.skip(1)
        } else {
            self.wrappers
        }
    }

    /// The element type of a list type, looking through one non-null marker.
    pub open spec fn item_type(self) -> Option<TypeView> {
        let w = self.nullable_wrappers();
        if w.len() > 0 && w[0] == Wrapper::List {
            Some(TypeView { name: self.name, wrappers: w.skip(1) })
        } else {
            None
        }
    }
}

impl Type {
    /// The element type of a list type, looking through one non-null marker.
    pub fn item_type(&self) -> (r: Option<Type>)
        ensures
            match r {
                Some(t) => self@.item_type() == Some(t@),
                None => self@.item_type() is None,
            },
    {
        let n = self.wrappers.len();
        let mut start: usize = 0;
        if n > 0 && self.wrappers[0] == Wrapper::NonNull {
            start = 1;
        }
        if start < n && self.wrappers[start] == Wrapper::List {
            let mut rest: Vec<Wrapper> = Vec::new();
            let mut i: usize = start + 1;
            while i < n
                invariant
                    start + 1 <= i <= n,
                    n == self.wrappers@.len(),
                    rest@ == self.wrappers@.subrange(start + 1, i as int),
                decreases n - i,
            {
                rest.push(self.wrappers[i]);
                assert(rest@ =~= self.wrappers@.subrange(start + 1, i + 1));
                i += 1;
            }
            let t = Type { name: self.name.clone(), wrappers: rest };
            assert(t@.wrappers =~= self@.nullable_wrappers().skip(1));
            Some(t)
        } else {
            None
        }
    }
}

/// One named entry of an input object literal.
#[derive(Debug, PartialEq, Eq)]
pub struct ObjectField {
    pub name: String,
    pub value: Value,
}

/// The view of an object field.
pub struct ObjectFieldView {
    pub name: Seq<char>,
    pub value: ValueView,
}

/// An input value. A float literal is held by the bit pattern of its
/// IEEE 754 double, so that `0.0` is the pattern `0`.
#[derive(Debug, PartialEq, Eq)]
pub enum Value {
    Variable(String),
    Int(i64),
    Float(u64),
    String(String),
    Boolean(bool),
    Null,
    Enum(String),
    List(Vec<Value>),
    Object(Vec<ObjectField>),
}

/// The view of a value.
pub enum ValueView {
    Variable(Seq<char>),
    Int(int),
    Float(int),
    String(Seq<char>),
    Boolean(bool),
    Null,
    Enum(Seq<char>),
    List(Seq<ValueView>),
    Object(Seq<ObjectFieldView>),
}

/// The view of a value, by recursion over nested lists and objects.
pub open spec fn value_view(v: Value) -> ValueView
    decreases v,
{
    match v {
        Value::Variable(s) => ValueView::Variable(s@),
        Value::Int(n) => ValueView::Int(n as int),
        Value::Float(bits) => ValueView::Float(bits as int),
        Value::String(s) => ValueView::String(s@),
        Value::Boolean(flag) => ValueView::Boolean(flag),
        Value::Null => ValueView::Null,
        Value::Enum(s) => ValueView::Enum(s@),
        Value::List(l) => ValueView::List(
            Seq::new(
                l@.len(),
                |i: int|
                    if 0 <= i < l@.len() {
                        value_view(l@[i])
                    } else {
                        ValueView::Null
                    },
            ),
        ),
        Value::Object(o) => ValueView::Object(
            Seq::new(
                o@.len(),
                |i: int|
                    if 0 <= i < o@.len() {
                        ObjectFieldView { name: o@[i].name@, value: value_view(o@[i].value) }
                    } else {
                        ObjectFieldView { name: Seq::empty(), value: ValueView::Null }
                    },
            ),
        ),
    }
}

impl View for Value {
    type V = ValueView;

    open spec fn view(&self) -> ValueView {
        value_view(*self)
    }
}

impl View for ObjectField {
    type V = ObjectFieldView;

    open spec fn view(&self) -> ObjectFieldView {
        ObjectFieldView { name: self.name@, value: self.value@ }
    }
}

/// An argument of a field or of a directive.
#[derive(Debug, PartialEq, Eq)]
pub struct Argument {
    pub name: String,
    pub value: Value,
}

/// The view of an argument.
pub struct ArgumentView {
    pub name: Seq<char>,
    pub value: ValueView,
}

impl View for Argument {
    type V = ArgumentView;

    open spec fn view(&self) -> ArgumentView {
        ArgumentView { name: self.name@, value: self.value@ }
    }
}

/// A directive applied to a node of the document.
#[derive(Debug, PartialEq, Eq)]
pub struct Directive {
    pub name: String,
    pub arguments: Vec<Argument>,
}

/// The view of a directive.
pub struct DirectiveView {
    pub name: Seq<char>,
    pub arguments: Seq<ArgumentView>,
}

impl View for Directive {
    type V = DirectiveView;

    open spec fn view(&self) -> DirectiveView {
        DirectiveView { name: self.name@, arguments: views(self.arguments@) }
    }
}

/// A variable declared by an operation.
#[derive(Debug, PartialEq, Eq)]
pub struct VariableDefinition {
    pub name: String,
    pub var_type: Type,
    pub default_value: Option<Value>,
}

/// The view of a variable definition.
pub struct VariableDefinitionView {
    pub name: Seq<char>,
    pub var_type: TypeView,
    pub default_value: Option<ValueView>,
}

impl View for VariableDefinition {
    type V = VariableDefinitionView;

    open spec fn view(&self) -> VariableDefinitionView {
        VariableDefinitionView {
            name: self.name@,
            var_type: self.var_type@,
            default_value: match self.default_value {
                Some(v) => Some(v@),
                None => None,
            },
        }
    }
}

/// One entry of a selection set.
#[derive(Debug, PartialEq, Eq)]
pub enum Selection {
    Field {
        alias: Option<String>,
        name: String,
        arguments: Vec<Argument>,
        directives: Vec<Directive>,
        selection_set: Vec<Selection>,
    },
    FragmentSpread { fragment_name: String, directives: Vec<Directive> },
    InlineFragment {
        type_condition: Option<String>,
        directives: Vec<Directive>,
        selection_set: Vec<Selection>,
    },
}

/// The view of a selection.
pub enum SelectionView {
    Field {
        alias: Option<Seq<char>>,
        name: Seq<char>,
        arguments: Seq<ArgumentView>,
        directives: Seq<DirectiveView>,
        selection_set: Seq<SelectionView>,
    },
    FragmentSpread { fragment_name: Seq<char>, directives: Seq<DirectiveView> },
    InlineFragment {
        type_condition: Option<Seq<char>>,
        directives: Seq<DirectiveView>,
        selection_set: Seq<SelectionView>,
    },
}

/// The view of a selection, by recursion over nested selection sets.
pub open spec fn selection_view(s: Selection) -> SelectionView
    decreases s,
{
    match s {
        Selection::Field { alias, name, arguments, directives, selection_set } => {
            SelectionView::Field {
                alias: opt_view(alias),
                name: name@,
                arguments: views(arguments@),
                directives: views(directives@),
                selection_set: Seq::new(
                    selection_set@.len(),
                    |i: int|
                        if 0 <= i < selection_set@.len() {
                            selection_view(selection_set@[i])
                        } else {
                            SelectionView::FragmentSpread { fragment_name: Seq::empty(), directives: Seq::empty() }
                        },
                ),
            }
        },
        Selection::FragmentSpread { fragment_name, directives } => {
            SelectionView::FragmentSpread {
                fragment_name: fragment_name@,
                directives: views(directives@),
            }
        },
        Selection::InlineFragment { type_condition, directives, selection_set } => {
            SelectionView::InlineFragment {
                type_condition: opt_view(type_condition),
                directives: views(directives@),
                selection_set: Seq::new(
                    selection_set@.len(),
                    |i: int|
                        if 0 <= i < selection_set@.len() {
                            selection_view(selection_set@[i])
                        } else {
                            SelectionView::FragmentSpread { fragment_name: Seq::empty(), directives: Seq::empty() }
                        },
                ),
            }
        },
    }
}

impl View for Selection {
    type V = SelectionView;

    open spec fn view(&self) -> SelectionView {
        selection_view(*self)
    }
}

/// How an operation was introduced in the source text.
#[derive(Clone, Copy, Debug, PartialEq, Eq, Structural)]
pub enum OperationKind {
    /// A bare selection set, which is a query without the keyword.
    Shorthand,
    Query,
    Mutation,
    Subscription,
}

/// An operation of a document.
#[derive(Debug, PartialEq, Eq)]
pub struct Operation {
    pub kind: OperationKind,
    pub name: Option<String>,
    pub variable_definitions: Vec<VariableDefinition>,
    pub directives: Vec<Directive>,
    pub selection_set: Vec<Selection>,
}

/// The view of an operation.
pub struct OperationView {
    pub kind: OperationKind,
    pub name: Option<Seq<char>>,
    pub variable_definitions: Seq<VariableDefinitionView>,
    pub directives: Seq<DirectiveView>,
    pub selection_set: Seq<SelectionView>,
}

impl View for Operation {
    type V = OperationView;

    open spec fn view(&self) -> OperationView {
        OperationView {
            kind: self.kind,
            name: opt_view(self.name),
            variable_definitions: views(self.variable_definitions@),
            directives: views(self.directives@),
            selection_set: views(self.selection_set@),
        }
    }
}

/// A named fragment of a document.
#[derive(Debug, PartialEq, Eq)]
pub struct Fragment {
    pub name: String,
    pub type_condition: String,
    pub directives: Vec<Directive>,
    pub selection_set: Vec<Selection>,
}

/// The view of a fragment.
pub struct FragmentView {
    pub name: Seq<char>,
    pub type_condition: Seq<char>,
    pub directives: Seq<DirectiveView>,
    pub selection_set: Seq<SelectionView>,
}

impl View for Fragment {
    type V = FragmentView;

    open spec fn view(&self) -> FragmentView {
        FragmentView {
            name: self.name@,
            type_condition: self.type_condition@,
            directives: views(self.directives@),
            selection_set: views(self.selection_set@),
        }
    }
}

/// A top-level definition of a document.
#[derive(Debug, PartialEq, Eq)]
pub enum Definition {
    Operation(Operation),
    Fragment(Fragment),
}

/// The view of a definition.
pub enum DefinitionView {
    Operation(OperationView),
    Fragment(FragmentView),
}

impl View for Definition {
    type V = DefinitionView;

    open spec fn view(&self) -> DefinitionView {
        match self {
            Definition::Operation(o) => DefinitionView::Operation(o@),
            Definition::Fragment(f) => DefinitionView::Fragment(f@),
        }
    }
}

/// A parsed operation document.
#[derive(Debug, PartialEq, Eq)]
pub struct Document {
    pub definitions: Vec<Definition>,
}

/// The view of a document.
pub struct DocumentView {
    pub definitions: Seq<DefinitionView>,
}

impl View for Document {
    type V = DocumentView;

    open spec fn view(&self) -> DocumentView {
        DocumentView { definitions: views(self.definitions@) }
    }
}

/// The view of a selection set read off a vector of selections is the
/// element-wise view, also below the top level of a selection.
pub proof fn lemma_selection_children(s: Selection)
    ensures
        s is Field ==> s@ is Field && s@->Field_selection_set == views(s->Field_selection_set@),
        s is InlineFragment ==> s@ is InlineFragment && s@->InlineFragment_selection_set == views(
            s->InlineFragment_selection_set@,
        ),
        s is FragmentSpread ==> s@ is FragmentSpread,
{
    if s is Field {
        assert(s@->Field_selection_set =~= views(s->Field_selection_set@));
    }
    if s is InlineFragment {
        assert(s@->InlineFragment_selection_set =~= views(s->InlineFragment_selection_set@));
    }
}

/// The view of a list or object literal is the element-wise view.
pub proof fn lemma_value_children(v: Value)
    ensures
        v is List ==> v@ == ValueView::List(views(v->List_0@)),
        v is Object ==> v@ == ValueView::Object(views(v->Object_0@)),
{
    if v is List {
        assert(v@->List_0 =~= views(v->List_0@));
    }
    if v is Object {
        assert(v@->Object_0 =~= views(v->Object_0@));
    }
}

} // verus!
