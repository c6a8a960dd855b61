//! The typed syntax tree of a query document, and its mathematical model.
//!
//! Every executable node has a `model()`: the same tree with `Seq` in place of
//! `Vec` and `String`, and mathematical integers in place of `i64`. The
//! grammar in `grammar.rs` is stated over these models.
use vstd::prelude::*;

verus! {

/// Input to fields and directives.
#[derive(Debug, PartialEq)]
pub enum InputValue {
    Variable(String),
    Int(i64),
    /// The numeral of a floating-point literal, exactly as written.
    Float(String),
    String(String),
    Boolean(bool),
    Null,
    Enum(String),
    List(Vec<InputValue>),
    /// Fields in source order; names are unique.
    Object(Vec<(String, InputValue)>),
}

/// A type literal in a query.
#[derive(Debug, PartialEq)]
pub enum Type {
    /// A type like `Int`.
    Named(String),
    /// A non-nullable type like `Int!`.
    NonNullNamed(String),
    /// A nullable list like `[Int]`; the element type carries its own nullability.
    List(Box<Type>),
    /// A non-nullable list like `[Int]!`.
    NonNullList(Box<Type>),
}

#[derive(Clone, Copy, Debug, PartialEq, Eq, Structural)]
pub enum OperationType {
    Query,
    Mutation,
}

/// An `@name(...)` annotation; argument names are unique.
#[derive(Debug, PartialEq)]
pub struct Directive {
    pub name: String,
    pub arguments: Vec<(String, InputValue)>,
}

/// A reference to a named fragment: `...name`.
#[derive(Debug, PartialEq)]
pub struct FragmentSpread {
    pub name: String,
    pub directives: Vec<Directive>,
}

/// A fragment written in place: `... on Type { ... }` or `... { ... }`.
#[derive(Debug, PartialEq)]
pub struct FragmentInline {
    pub type_condition: Option<String>,
    pub directives: Vec<Directive>,
    pub selection_set: SelectionSet,
}

/// A requested field; argument names are unique, and a leaf has an empty selection set.
#[derive(Debug, PartialEq)]
pub struct Field {
    pub alias: Option<String>,
    pub name: String,
    pub arguments: Vec<(String, InputValue)>,
    pub directives: Vec<Directive>,
    pub selection_set: SelectionSet,
}

impl Default for Field {
    /// A leaf field with an empty name, no alias, arguments or directives.
    fn default() -> (r: Field)
        ensures
            r.alias is None,
            r.name@ == Seq::<char>::empty(),
            r.arguments@ == Seq::<(String, InputValue)>::empty(),
            r.directives@ == Seq::<Directive>::empty(),
            r.selection_set@ == Seq::<Selection>::empty(),
    {
        Field {
            alias: None,
            name: String::new(),
            arguments: Vec::new(),
            directives: Vec::new(),
            selection_set: Vec::new(),
        }
    }
}

/// What can be found in a selection set.
#[derive(Debug, PartialEq)]
pub enum Selection {
    Field(Box<Field>),
    FragmentSpread(Box<FragmentSpread>),
    FragmentInline(Box<FragmentInline>),
}

pub type SelectionSet = Vec<Selection>;

/// A declared variable of an operation: `$name: Type = default`.
#[derive(Debug, PartialEq)]
pub struct VariableDefinition {
    pub name: String,
    pub var_type: Type,
    pub default_value: Option<InputValue>,
}

/// `fragment name on Type @directive { ... }`.
#[derive(Debug, PartialEq)]
pub struct FragmentDefinition {
    pub name: String,
    pub type_condition: String,
    pub directive: Option<Directive>,
    pub selection_set: SelectionSet,
}

/// A query or a mutation; a bare selection set is an anonymous query.
#[derive(Debug, PartialEq)]
pub struct Operation {
    pub kind: OperationType,
    pub name: Option<String>,
    pub variable_definitions: Vec<VariableDefinition>,
    pub directives: Vec<Directive>,
    pub selection_set: SelectionSet,
}

/// A top-level construct of a document.
#[derive(Debug, PartialEq)]
pub enum Node {
    Operation(Operation),
    FragmentDefinition(FragmentDefinition),
}

pub type Document = Vec<Node>;

// ---------------------------------------------------------------------------
// Models
pub type Text = Seq<char>;

pub enum ValueModel {
    Variable(Text),
    Int(int),
    Float(Text),
    Str(Text),
    Boolean(bool),
    Null,
    Enum(Text),
    List(Seq<ValueModel>),
    Object(Seq<(Text, ValueModel)>),
}

pub enum TypeModel {
    Named(Text),
    NonNullNamed(Text),
    List(Box<TypeModel>),
    NonNullList(Box<TypeModel>),
}

pub struct DirectiveModel {
    pub name: Text,
    pub arguments: Seq<(Text, ValueModel)>,
}

pub enum SelectionModel {
    Field {
        alias: Option<Text>,
        name: Text,
        arguments: Seq<(Text, ValueModel)>,
        directives: Seq<DirectiveModel>,
        selection_set: Seq<SelectionModel>,
    },
    Spread { name: Text, directives: Seq<DirectiveModel> },
    Inline {
        type_condition: Option<Text>,
        directives: Seq<DirectiveModel>,
        selection_set: Seq<SelectionModel>,
    },
}

pub struct VariableModel {
    pub name: Text,
    pub var_type: TypeModel,
    pub default_value: Option<ValueModel>,
}

pub enum NodeModel {
    Operation {
        kind: OperationType,
        name: Option<Text>,
        variables: Seq<VariableModel>,
        directives: Seq<DirectiveModel>,
        selection_set: Seq<SelectionModel>,
    },
    Fragment {
        fragment_name: Text,
        type_condition: Text,
        directive: Option<DirectiveModel>,
        selection_set: Seq<SelectionModel>,
    },
}

pub open spec fn opt_text(o: Option<String>) -> Option<Text> {
    match o {
        Some(s) => Some(s@),
        None => None,
    }
}

impl InputValue {
    pub open spec fn model(&self) -> ValueModel
        decreases self,
    {
        match self {
            InputValue::Variable(n) => ValueModel::Variable(n@),
            InputValue::Int(i) => ValueModel::Int(*i as int),
            InputValue::Float(t) => ValueModel::Float(t@),
            InputValue::String(t) => ValueModel::Str(t@),
            InputValue::Boolean(b) => ValueModel::Boolean(*b),
            InputValue::Null => ValueModel::Null,
            InputValue::Enum(n) => ValueModel::Enum(n@),
            InputValue::List(v) => ValueModel::List(values_model(v@)),
            InputValue::Object(v) => ValueModel::Object(pairs_model(v@)),
        }
    }
}

pub open spec fn values_model(s: Seq<InputValue>) -> Seq<ValueModel>
    decreases s,
{
    if s.len() == 0 {
        Seq::empty()
    } else {
        values_model(s.subrange(0, s.len() - 1)).push(s[s.len() - 1].model())
    }
}

pub open spec fn pairs_model(s: Seq<(String, InputValue)>) -> Seq<(Text, ValueModel)>
    decreases s,
{
    if s.len() == 0 {
        Seq::empty()
    } else {
        pairs_model(s.subrange(0, s.len() - 1)).push((s[s.len() - 1].0@, s[s.len() - 1].1.model()))
    }
}

impl Type {
    pub open spec fn model(&self) -> TypeModel
        decreases self,
    {
        match self {
            Type::Named(n) => TypeModel::Named(n@),
            Type::NonNullNamed(n) => TypeModel::NonNullNamed(n@),
            Type::List(t) => TypeModel::List(Box::new(t.model())),
            Type::NonNullList(t) => TypeModel::NonNullList(Box::new(t.model())),
        }
    }
}

impl Directive {
    pub open spec fn model(&self) -> DirectiveModel {
        DirectiveModel { name: self.name@, arguments: pairs_model(self.arguments@) }
    }
}

pub open spec fn directives_model(s: Seq<Directive>) -> Seq<DirectiveModel> {
    s.map_values(|d: Directive| d.model())
}

pub open spec fn opt_directive_model(o: Option<Directive>) -> Option<DirectiveModel> {
    match o {
        Some(d) => Some(d.model()),
        None => None,
    }
}

impl Selection {
    pub open spec fn model(&self) -> SelectionModel
        decreases self,
    {
        match self {
            Selection::Field(f) => SelectionModel::Field {
                alias: opt_text(f.alias),
                name: f.name@,
                arguments: pairs_model(f.arguments@),
                directives: directives_model(f.directives@),
                selection_set: selections_model(f.selection_set@),
            },
            Selection::FragmentSpread(f) => SelectionModel::Spread {
                name: f.name@,
                directives: directives_model(f.directives@),
            },
            Selection::FragmentInline(f) => SelectionModel::Inline {
                type_condition: opt_text(f.type_condition),
                directives: directives_model(f.directives@),
                selection_set: selections_model(f.selection_set@),
            },
        }
    }
}

pub open spec fn selections_model(s: Seq<Selection>) -> Seq<SelectionModel>
    decreases s,
{
    if s.len() == 0 {
        Seq::empty()
    } else {
        selections_model(s.subrange(0, s.len() - 1)).push(s[s.len() - 1].model())
    }
}

impl VariableDefinition {
    pub open spec fn model(&self) -> VariableModel {
        VariableModel {
            name: self.name@,
            var_type: self.var_type.model(),
            default_value: opt_value_model(self.default_value),
        }
    }
}

pub open spec fn variables_model(s: Seq<VariableDefinition>) -> Seq<VariableModel> {
    s.map_values(|v: VariableDefinition| v.model())
}

pub open spec fn opt_value_model(o: Option<InputValue>) -> Option<ValueModel> {
    match o {
        Some(v) => Some(v.model()),
        None => None,
    }
}

impl Node {
    pub open spec fn model(&self) -> NodeModel {
        match self {
            Node::Operation(o) => NodeModel::Operation {
                kind: o.kind,
                name: opt_text(o.name),
                variables: variables_model(o.variable_definitions@),
                directives: directives_model(o.directives@),
                selection_set: selections_model(o.selection_set@),
            },
            Node::FragmentDefinition(f) => NodeModel::Fragment {
                fragment_name: f.name@,
                type_condition: f.type_condition@,
                directive: opt_directive_model(f.directive),
                selection_set: selections_model(f.selection_set@),
            },
        }
    }
}

pub open spec fn document_model(d: Seq<Node>) -> Seq<NodeModel> {
    d.map_values(|n: Node| n.model())
}

} // verus!
