//! The grammar of query documents, stated over the character sequence of the
//! input. Each production takes the position where it starts (past any blanks)
//! and gives its model and the position after it and the blanks that follow,
//! or the error that stops the parse. `d` is the nesting depth still allowed.
use vstd::prelude::*;
use crate::ast::{DirectiveModel, NodeModel, OperationType, SelectionModel, Text, TypeModel, ValueModel, VariableModel};
use crate::error::{fail, syntax, ErrorKind, Expected, Fail};
use crate::lexical::{at, is_digit, is_name_start, name_at, name_end, name_text, number, skip, string_literal};

verus! {

/// How deeply selection sets, list and object values, and list types may nest.
/// The selection set of a top-level definition does not count, so it may hold
/// this many levels of nested sets below it.
pub const MAX_DEPTH: usize = 64;

pub open spec fn word_on() -> Text {
    seq!['o', 'n']
}

pub open spec fn word_query() -> Text {
    seq!['q', 'u', 'e', 'r', 'y']
}

pub open spec fn word_mutation() -> Text {
    seq!['m', 'u', 't', 'a', 't', 'i', 'o', 'n']
}

pub open spec fn word_fragment() -> Text {
    seq!['f', 'r', 'a', 'g', 'm', 'e', 'n', 't']
}

pub open spec fn word_true() -> Text {
    seq!['t', 'r', 'u', 'e']
}

pub open spec fn word_false() -> Text {
    seq!['f', 'a', 'l', 's', 'e']
}

pub open spec fn word_null() -> Text {
    seq!['n', 'u', 'l', 'l']
}

/// The position after the name at `p` and the blanks that follow it.
pub open spec fn after_name(s: Text, p: int) -> int {
    skip(s, name_end(s, p))
}

/// The value that a name stands for: a boolean, null, or an enum value.
pub open spec fn name_value(t: Text) -> ValueModel {
    if t == word_true() {
        ValueModel::Boolean(true)
    } else if t == word_false() {
        ValueModel::Boolean(false)
    } else if t == word_null() {
        ValueModel::Null
    } else {
        ValueModel::Enum(t)
    }
}

pub open spec fn has_key(acc: Seq<(Text, ValueModel)>, k: Text) -> bool {
    exists|i: int| 0 <= i < acc.len() && (#[trigger] acc[i]).0 == k
}

pub open spec fn value(s: Text, p: int, d: nat) -> Result<(ValueModel, int), Fail>
    decreases d, 0nat, s.len() - p,
{
    if !(0 <= p < s.len()) {
        syntax(Expected::Value, p)
    } else if s[p] == '$' {
        if name_at(s, p + 1) {
            Ok((ValueModel::Variable(name_text(s, p + 1)), after_name(s, p + 1)))
        } else {
            syntax(Expected::Name, p + 1)
        }
    } else if s[p] == '-' || is_digit(s[p]) {
        number(s, p)
    } else if s[p] == '"' {
        string_literal(s, p)
    } else if s[p] == '[' {
        if d == 0 {
            fail(ErrorKind::TooDeep, p)
        } else {
            list_rest(s, skip(s, p + 1), (d - 1) as nat, Seq::empty())
        }
    } else if s[p] == '{' {
        if d == 0 {
            fail(ErrorKind::TooDeep, p)
        } else {
            match pairs_rest(s, skip(s, p + 1), (d - 1) as nat, '}', true, Seq::empty()) {
                Err(f) => Err(f),
                Ok((fields, e)) => Ok((ValueModel::Object(fields), e)),
            }
        }
    } else if is_name_start(s[p]) {
        Ok((name_value(name_text(s, p)), after_name(s, p)))
    } else {
        syntax(Expected::Value, p)
    }
}

/// The items of a list value from `p` up to its `]`, appended to `acc`.
pub open spec fn list_rest(s: Text, p: int, d: nat, acc: Seq<ValueModel>) -> Result<
    (ValueModel, int),
    Fail,
>
    decreases d, 1nat, s.len() - p,
{
    if !(0 <= p < s.len()) {
        syntax(Expected::Char(']'), p)
    } else if s[p] == ']' {
        Ok((ValueModel::List(acc), skip(s, p + 1)))
    } else {
        match value(s, p, d) {
            Err(f) => Err(f),
            Ok((v, e)) => if p < e <= s.len() {
                list_rest(s, e, d, acc.push(v))
            } else {
                syntax(Expected::Value, p)
            },
        }
    }
}

/// `name: value` pairs from `p` up to `close`, appended to `acc`; a name may
/// not repeat, and the pairs may be empty only where `allow_empty` says so.
pub open spec fn pairs_rest(
    s: Text,
    p: int,
    d: nat,
    close: char,
    allow_empty: bool,
    acc: Seq<(Text, ValueModel)>,
) -> Result<(Seq<(Text, ValueModel)>, int), Fail>
    decreases d, 1nat, s.len() - p,
{
    if !(0 <= p < s.len()) {
        syntax(Expected::Char(close), p)
    } else if s[p] == close {
        if acc.len() == 0 && !allow_empty {
            syntax(Expected::Name, p)
        } else {
            Ok((acc, skip(s, p + 1)))
        }
    } else if !is_name_start(s[p]) {
        syntax(Expected::Name, p)
    } else {
        let k = name_text(s, p);
        let c = after_name(s, p);
        if has_key(acc, k) {
            fail(ErrorKind::DuplicateKey, p)
        } else if !at(s, c, ':') {
            syntax(Expected::Char(':'), c)
        } else {
            match value(s, skip(s, c + 1), d) {
                Err(f) => Err(f),
                Ok((v, e)) => if p < e <= s.len() {
                    pairs_rest(s, e, d, close, allow_empty, acc.push((k, v)))
                } else {
                    syntax(Expected::Value, p)
                },
            }
        }
    }
}

/// An optional argument list `( name: value, ... )` at `p`.
pub open spec fn arguments(s: Text, p: int, d: nat) -> Result<(Seq<(Text, ValueModel)>, int), Fail> {
    if at(s, p, '(') {
        pairs_rest(s, skip(s, p + 1), d, ')', false, Seq::empty())
    } else {
        Ok((Seq::empty(), p))
    }
}

/// A directive `@name(args)` whose `@` stands at `p`.
pub open spec fn directive(s: Text, p: int, d: nat) -> Result<(DirectiveModel, int), Fail> {
    let q = skip(s, p + 1);
    if !at(s, p, '@') {
        syntax(Expected::Char('@'), p)
    } else if !name_at(s, q) {
        syntax(Expected::Name, q)
    } else {
        match arguments(s, after_name(s, q), d) {
            Err(f) => Err(f),
            Ok((args, e)) => Ok((DirectiveModel { name: name_text(s, q), arguments: args }, e)),
        }
    }
}

/// The directives from `p` on, appended to `acc`.
pub open spec fn directives_rest(s: Text, p: int, d: nat, acc: Seq<DirectiveModel>) -> Result<
    (Seq<DirectiveModel>, int),
    Fail,
>
    decreases s.len() - p,
{
    if at(s, p, '@') {
        match directive(s, p, d) {
            Err(f) => Err(f),
            Ok((x, e)) => if p < e <= s.len() {
                directives_rest(s, e, d, acc.push(x))
            } else {
                syntax(Expected::Name, p)
            },
        }
    } else {
        Ok((acc, p))
    }
}

/// A type reference: `Name`, `Name!`, `[Type]` or `[Type]!`.
pub open spec fn type_ref(s: Text, p: int, d: nat) -> Result<(TypeModel, int), Fail>
    decreases d,
{
    if name_at(s, p) {
        let e = after_name(s, p);
        if at(s, e, '!') {
            Ok((TypeModel::NonNullNamed(name_text(s, p)), skip(s, e + 1)))
        } else {
            Ok((TypeModel::Named(name_text(s, p)), e))
        }
    } else if at(s, p, '[') {
        if d == 0 {
            fail(ErrorKind::TooDeep, p)
        } else {
            match type_ref(s, skip(s, p + 1), (d - 1) as nat) {
                Err(f) => Err(f),
                Ok((t, e)) => if !at(s, e, ']') {
                    syntax(Expected::Char(']'), e)
                } else {
                    let f = skip(s, e + 1);
                    if at(s, f, '!') {
                        Ok((TypeModel::NonNullList(Box::new(t)), skip(s, f + 1)))
                    } else {
                        Ok((TypeModel::List(Box::new(t)), f))
                    }
                },
            }
        }
    } else {
        syntax(Expected::Type, p)
    }
}

/// An optional default `= value` at `p`.
pub open spec fn default_value(s: Text, p: int, d: nat) -> Result<(Option<ValueModel>, int), Fail> {
    if at(s, p, '=') {
        match value(s, skip(s, p + 1), d) {
            Err(f) => Err(f),
            Ok((v, e)) => Ok((Some(v), e)),
        }
    } else {
        Ok((None, p))
    }
}

/// Variable definitions `$name: Type = default` from `p` up to `)`, appended to `acc`.
pub open spec fn variables_rest(s: Text, p: int, d: nat, acc: Seq<VariableModel>) -> Result<
    (Seq<VariableModel>, int),
    Fail,
>
    decreases s.len() - p,
{
    if !(0 <= p < s.len()) {
        syntax(Expected::Char(')'), p)
    } else if s[p] == ')' {
        Ok((acc, skip(s, p + 1)))
    } else if s[p] != '$' {
        syntax(Expected::Char('$'), p)
    } else if !name_at(s, p + 1) {
        syntax(Expected::Name, p + 1)
    } else {
        let c = after_name(s, p + 1);
        if !at(s, c, ':') {
            syntax(Expected::Char(':'), c)
        } else {
            match type_ref(s, skip(s, c + 1), d) {
                Err(f) => Err(f),
                Ok((t, q)) => match default_value(s, q, d) {
                    Err(f) => Err(f),
                    Ok((dv, e)) => if p < e <= s.len() {
                        variables_rest(
                            s,
                            e,
                            d,
                            acc.push(
                                VariableModel {
                                    name: name_text(s, p + 1),
                                    var_type: t,
                                    default_value: dv,
                                },
                            ),
                        )
                    } else {
                        syntax(Expected::Type, p)
                    },
                },
            }
        }
    }
}

/// Optional variable definitions `( ... )` at `p`.
pub open spec fn variable_defs(s: Text, p: int, d: nat) -> Result<(Seq<VariableModel>, int), Fail> {
    if at(s, p, '(') {
        variables_rest(s, skip(s, p + 1), d, Seq::empty())
    } else {
        Ok((Seq::empty(), p))
    }
}

/// The alias and name of a field whose first name starts at `p`.
pub open spec fn field_head(s: Text, p: int) -> Result<((Option<Text>, Text), int), Fail> {
    let q = after_name(s, p);
    if at(s, q, ':') {
        let r = skip(s, q + 1);
        if name_at(s, r) {
            Ok(((Some(name_text(s, p)), name_text(s, r)), after_name(s, r)))
        } else {
            syntax(Expected::Name, r)
        }
    } else {
        Ok(((None, name_text(s, p)), q))
    }
}

/// A field whose first name starts at `p`.
pub open spec fn field(s: Text, p: int, d: nat) -> Result<(SelectionModel, int), Fail>
    decreases d, 0nat, s.len() - p,
{
    match field_head(s, p) {
        Err(f) => Err(f),
        Ok(((alias, name), q)) => match arguments(s, q, d) {
            Err(f) => Err(f),
            Ok((args, r)) => match directives_rest(s, r, d, Seq::empty()) {
                Err(f) => Err(f),
                Ok((dirs, t)) => if at(s, t, '{') {
                    if d == 0 {
                        fail(ErrorKind::TooDeep, t)
                    } else {
                        match selection_set(s, t, (d - 1) as nat) {
                            Err(f) => Err(f),
                            Ok((set, e)) => Ok(
                                (
                                    SelectionModel::Field {
                                        alias,
                                        name,
                                        arguments: args,
                                        directives: dirs,
                                        selection_set: set,
                                    },
                                    e,
                                ),
                            ),
                        }
                    }
                } else {
                    Ok(
                        (
                            SelectionModel::Field {
                                alias,
                                name,
                                arguments: args,
                                directives: dirs,
                                selection_set: Seq::empty(),
                            },
                            t,
                        ),
                    )
                },
            },
        },
    }
}

/// An optional type condition `on Type` at `q`.
pub open spec fn type_condition(s: Text, q: int) -> Result<(Option<Text>, int), Fail> {
    if name_at(s, q) && name_text(s, q) == word_on() {
        let r = after_name(s, q);
        if name_at(s, r) {
            Ok((Some(name_text(s, r)), after_name(s, r)))
        } else {
            syntax(Expected::Name, r)
        }
    } else {
        Ok((None, q))
    }
}

/// `...` followed by a fragment name other than `on` is a spread; any other
/// `...` begins an inline fragment.
pub open spec fn is_spread(s: Text, q: int) -> bool {
    name_at(s, q) && name_text(s, q) != word_on()
}

pub open spec fn at_ellipsis(s: Text, p: int) -> bool {
    at(s, p, '.') && at(s, p + 1, '.') && at(s, p + 2, '.')
}

/// A selection: a fragment spread, an inline fragment or a field.
pub open spec fn selection(s: Text, p: int, d: nat) -> Result<(SelectionModel, int), Fail>
    decreases d, 1nat, s.len() - p,
{
    if at_ellipsis(s, p) {
        let q = skip(s, p + 3);
        if is_spread(s, q) {
            match directives_rest(s, after_name(s, q), d, Seq::empty()) {
                Err(f) => Err(f),
                Ok((dirs, e)) => Ok(
                    (SelectionModel::Spread { name: name_text(s, q), directives: dirs }, e),
                ),
            }
        } else {
            match type_condition(s, q) {
                Err(f) => Err(f),
                Ok((tc, r)) => match directives_rest(s, r, d, Seq::empty()) {
                    Err(f) => Err(f),
                    Ok((dirs, t)) => if !at(s, t, '{') {
                        syntax(Expected::Char('{'), t)
                    } else if d == 0 {
                        fail(ErrorKind::TooDeep, t)
                    } else {
                        match selection_set(s, t, (d - 1) as nat) {
                            Err(f) => Err(f),
                            Ok((set, e)) => Ok(
                                (
                                    SelectionModel::Inline {
                                        type_condition: tc,
                                        directives: dirs,
                                        selection_set: set,
                                    },
                                    e,
                                ),
                            ),
                        }
                    },
                },
            }
        }
    } else if name_at(s, p) {
        field(s, p, d)
    } else {
        syntax(Expected::Selection, p)
    }
}

/// Selections from `p` up to `}`, appended to `acc`; a selection set is never empty.
pub open spec fn selections_rest(s: Text, p: int, d: nat, acc: Seq<SelectionModel>) -> Result<
    (Seq<SelectionModel>, int),
    Fail,
>
    decreases d, 2nat, s.len() - p,
{
    if !(0 <= p < s.len()) {
        syntax(Expected::Char('}'), p)
    } else if s[p] == '}' {
        if acc.len() == 0 {
            syntax(Expected::Selection, p)
        } else {
            Ok((acc, skip(s, p + 1)))
        }
    } else {
        match selection(s, p, d) {
            Err(f) => Err(f),
            Ok((x, e)) => if p < e <= s.len() {
                selections_rest(s, e, d, acc.push(x))
            } else {
                syntax(Expected::Selection, p)
            },
        }
    }
}

/// A selection set whose `{` stands at `p`.
pub open spec fn selection_set(s: Text, p: int, d: nat) -> Result<(Seq<SelectionModel>, int), Fail>
    decreases d, 3nat, s.len() - p,
{
    if !at(s, p, '{') {
        syntax(Expected::Char('{'), p)
    } else {
        selections_rest(s, skip(s, p + 1), d, Seq::empty())
    }
}

/// The selection set that a definition ends with, at `p`.
pub open spec fn definition_body(s: Text, p: int) -> Result<(Seq<SelectionModel>, int), Fail> {
    selection_set(s, p, MAX_DEPTH as nat)
}

/// An operation after its `query` or `mutation` keyword, from `q`.
pub open spec fn operation_rest(s: Text, q: int, kind: OperationType) -> Result<(NodeModel, int), Fail> {
    let name = if name_at(s, q) {
        Some(name_text(s, q))
    } else {
        None
    };
    let r = if name_at(s, q) {
        after_name(s, q)
    } else {
        q
    };
    match variable_defs(s, r, MAX_DEPTH as nat) {
        Err(f) => Err(f),
        Ok((vars, t)) => match directives_rest(s, t, MAX_DEPTH as nat, Seq::empty()) {
            Err(f) => Err(f),
            Ok((dirs, u)) => match definition_body(s, u) {
                Err(f) => Err(f),
                Ok((set, e)) => Ok(
                    (
                        NodeModel::Operation {
                            kind,
                            name,
                            variables: vars,
                            directives: dirs,
                            selection_set: set,
                        },
                        e,
                    ),
                ),
            },
        },
    }
}

/// The end of a fragment definition: its selection set at `v`.
pub open spec fn fragment_tail(
    s: Text,
    q: int,
    t: int,
    directive: Option<DirectiveModel>,
    v: int,
) -> Result<(NodeModel, int), Fail> {
    match definition_body(s, v) {
        Err(f) => Err(f),
        Ok((set, e)) => Ok(
            (
                NodeModel::Fragment {
                    fragment_name: name_text(s, q),
                    type_condition: name_text(s, t),
                    directive,
                    selection_set: set,
                },
                e,
            ),
        ),
    }
}

/// A fragment definition after its `fragment` keyword, from `q`: a name other
/// than `on`, `on`, a type name, at most one directive, and a selection set.
pub open spec fn fragment_rest(s: Text, q: int) -> Result<(NodeModel, int), Fail> {
    let r = after_name(s, q);
    let t = after_name(s, r);
    let u = after_name(s, t);
    if !name_at(s, q) || name_text(s, q) == word_on() {
        syntax(Expected::Name, q)
    } else if !(name_at(s, r) && name_text(s, r) == word_on()) {
        syntax(Expected::Keyword, r)
    } else if !name_at(s, t) {
        syntax(Expected::Name, t)
    } else if at(s, u, '@') {
        match directive(s, u, MAX_DEPTH as nat) {
            Err(f) => Err(f),
            Ok((x, v)) => fragment_tail(s, q, t, Some(x), v),
        }
    } else {
        fragment_tail(s, q, t, None, u)
    }
}

/// A top-level definition at `p`: an operation, a bare selection set (an
/// anonymous query), or a fragment definition.
#[verifier::opaque]
pub open spec fn definition(s: Text, p: int) -> Result<(NodeModel, int), Fail> {
    if at(s, p, '{') {
        match definition_body(s, p) {
            Err(f) => Err(f),
            Ok((set, e)) => Ok(
                (
                    NodeModel::Operation {
                        kind: OperationType::Query,
                        name: None,
                        variables: Seq::empty(),
                        directives: Seq::empty(),
                        selection_set: set,
                    },
                    e,
                ),
            ),
        }
    } else if name_at(s, p) {
        let w = name_text(s, p);
        let q = after_name(s, p);
        if w == word_query() {
            operation_rest(s, q, OperationType::Query)
        } else if w == word_mutation() {
            operation_rest(s, q, OperationType::Mutation)
        } else if w == word_fragment() {
            fragment_rest(s, q)
        } else {
            syntax(Expected::Definition, p)
        }
    } else {
        syntax(Expected::Definition, p)
    }
}

/// The definitions from `p` to the end of the input, appended to `acc`.
pub open spec fn definitions_rest(s: Text, p: int, acc: Seq<NodeModel>) -> Result<Seq<NodeModel>, Fail>
    decreases s.len() - p,
{
    if !(0 <= p < s.len()) {
        if acc.len() == 0 {
            Err((ErrorKind::Syntax(Expected::Definition), p))
        } else {
            Ok(acc)
        }
    } else {
        match definition(s, p) {
            Err(f) => Err(f),
            Ok((x, e)) => if p < e <= s.len() {
                definitions_rest(s, e, acc.push(x))
            } else {
                Err((ErrorKind::Syntax(Expected::Definition), p))
            },
        }
    }
}

/// A whole document: one or more definitions, and nothing else but blanks and comments.
pub open spec fn document(s: Text) -> Result<Seq<NodeModel>, Fail> {
    definitions_rest(s, skip(s, 0), Seq::empty())
}

} // verus!
