//! Commas are insignificant: outside string literals, a comma reads exactly
//! as a space. Each production gives the same outcome on a text and on the
//! same text with one comma turned into a space.
use vstd::prelude::*;
use crate::ast::{DirectiveModel, NodeModel, OperationType, SelectionModel, Text, ValueModel};
use crate::grammar::{
    after_name, arguments, default_value, definition, definitions_rest, directive,
    directives_rest, document, field, field_head, fragment_rest, list_rest, operation_rest,
    pairs_rest, selection, selection_set, selections_rest, type_condition, type_ref, value,
    variable_defs, variables_rest, MAX_DEPTH,
};
use crate::lexical::{
    digits_end, digits_value, exponent_end, exponent_value, is_digit, is_name_char, lemma_digit_run, name_at, name_end,
    name_text, number, skip, skip_from,
};

verus! {

/// `t` is `s` with the comma at `i` turned into a space, and `s` holds no
/// string literal.
pub open spec fn comma_swapped(s: Text, t: Text, i: int) -> bool {
    &&& 0 <= i < s.len()
    &&& s[i] == ','
    &&& t == s.update(i, ' ')
    &&& forall|k: int| 0 <= k < s.len() ==> s[k] != '"'
}

proof fn lemma_skip(s: Text, t: Text, i: int, p: int, b: bool)
    requires
        comma_swapped(s, t, i),
    ensures
        skip_from(s, p, b) == skip_from(t, p, b),
    decreases s.len() - p,
{
    if 0 <= p < s.len() {
        lemma_skip(s, t, i, p + 1, true);
        lemma_skip(s, t, i, p + 1, false);
    }
}

proof fn lemma_name_end(s: Text, t: Text, i: int, p: int)
    requires
        comma_swapped(s, t, i),
    ensures
        name_end(s, p) == name_end(t, p),
        0 <= p <= s.len() ==> p <= name_end(s, p) <= s.len(),
        forall|k: int| p <= k < name_end(s, p) ==> #[trigger] is_name_char(s[k]),
    decreases s.len() - p,
{
    if 0 <= p < s.len() {
        lemma_name_end(s, t, i, p + 1);
    }
}

proof fn lemma_name(s: Text, t: Text, i: int, p: int)
    requires
        comma_swapped(s, t, i),
    ensures
        name_end(s, p) == name_end(t, p),
        name_at(s, p) == name_at(t, p),
        name_at(s, p) ==> name_text(s, p) == name_text(t, p),
        after_name(s, p) == after_name(t, p),
{
    lemma_name_end(s, t, i, p);
    lemma_skip(s, t, i, name_end(s, p), false);
    if name_at(s, p) {
        assert forall|k: int| 0 <= k < name_end(s, p) - p implies name_text(s, p)[k] == name_text(
            t,
            p,
        )[k] by {
            assert(is_name_char(s[p + k]));
        }
        assert(name_text(s, p) =~= name_text(t, p));
    }
}

proof fn lemma_digits_end(s: Text, t: Text, i: int, p: int)
    requires
        comma_swapped(s, t, i),
    ensures
        digits_end(s, p) == digits_end(t, p),
    decreases s.len() - p,
{
    if 0 <= p < s.len() {
        lemma_digits_end(s, t, i, p + 1);
    }
}

proof fn lemma_digits_value(s: Text, t: Text, i: int, from: int, to: int)
    requires
        comma_swapped(s, t, i),
        0 <= from,
        to <= s.len(),
        forall|k: int| from <= k < to ==> is_digit(#[trigger] s[k]),
    ensures
        digits_value(s, from, to) == digits_value(t, from, to),
    decreases to - from,
{
    if from < to {
        lemma_digits_value(s, t, i, from, to - 1);
        assert(is_digit(s[to - 1]));
    }
}

proof fn lemma_number(s: Text, t: Text, i: int, p: int)
    requires
        comma_swapped(s, t, i),
        0 <= p < s.len(),
    ensures
        number(s, p) == number(t, p),
{
    reveal(number);
    let negative = s[p] == '-';
    let q = if negative { p + 1 } else { p };
    if q < s.len() && is_digit(s[q]) {
        lemma_digits_end(s, t, i, q);
        lemma_digit_run(s, q);
        lemma_digit_run(s, q + 1);
        let ie = if s[q] == '0' { q + 1 } else { digits_end(s, q) };
        lemma_digits_end(s, t, i, ie + 1);
        if ie + 1 <= s.len() {
            lemma_digit_run(s, ie + 1);
        }
        let has_frac = 0 <= ie < s.len() && s[ie] == '.';
        let fe = if has_frac { digits_end(s, ie + 1) } else { ie };
        let r = if 0 <= fe + 1 < s.len() && (s[fe + 1] == '+' || s[fe + 1] == '-') {
            fe + 2
        } else {
            fe + 1
        };
        lemma_digits_end(s, t, i, r);
        if r <= s.len() {
            lemma_digit_run(s, r);
        }
        assert(exponent_end(s, fe) == exponent_end(t, fe));
        if let Ok(ee) = exponent_end(s, fe) {
            lemma_skip(s, t, i, ee, false);
            lemma_skip(s, t, i, ie, false);
            lemma_digits_value(s, t, i, q, ie);
            if ee != fe {
                lemma_digits_value(s, t, i, r, ee);
            }
            let fs = if has_frac { ie + 1 } else { fe };
            assert(s.subrange(q, ie) =~= t.subrange(q, ie)) by {
                assert forall|k: int| q <= k < ie implies s[k] == t[k] by {
                    assert(is_digit(s[k]));
                }
            }
            assert(s.subrange(fs, fe) =~= t.subrange(fs, fe)) by {
                assert forall|k: int| fs <= k < fe implies s[k] == t[k] by {
                    assert(is_digit(s[k]));
                }
            }
            assert(exponent_value(s, fe, ee) == exponent_value(t, fe, ee));
            if has_frac || ee != fe {
                assert forall|k: int| p <= k < ee implies s[k] != ',' by {
                    if k >= q && k < ie {
                        assert(is_digit(s[k]));
                    } else if has_frac && ie + 1 <= k < fe {
                        assert(is_digit(s[k]));
                    } else if ee != fe && r <= k < ee {
                        assert(is_digit(s[k]));
                    }
                }
                assert(s.subrange(p, ee) =~= t.subrange(p, ee));
            }
        }
    }
}

proof fn lemma_value(s: Text, t: Text, i: int, p: int, d: nat)
    requires
        comma_swapped(s, t, i),
    ensures
        value(s, p, d) == value(t, p, d),
    decreases d, 0nat, s.len() - p,
{
    if 0 <= p < s.len() {
        lemma_name(s, t, i, p + 1);
        lemma_name(s, t, i, p);
        lemma_number(s, t, i, p);
        lemma_skip(s, t, i, p + 1, false);
        if d > 0 {
            lemma_list(s, t, i, skip(s, p + 1), (d - 1) as nat, Seq::empty());
            lemma_pairs(s, t, i, skip(s, p + 1), (d - 1) as nat, '}', true, Seq::empty());
        }
    }
}

proof fn lemma_list(s: Text, t: Text, i: int, p: int, d: nat, acc: Seq<ValueModel>)
    requires
        comma_swapped(s, t, i),
    ensures
        list_rest(s, p, d, acc) == list_rest(t, p, d, acc),
    decreases d, 1nat, s.len() - p,
{
    if 0 <= p < s.len() {
        lemma_skip(s, t, i, p + 1, false);
        lemma_value(s, t, i, p, d);
        if let Ok((v, e)) = value(s, p, d) {
            if p < e <= s.len() {
                lemma_list(s, t, i, e, d, acc.push(v));
            }
        }
    }
}

proof fn lemma_pairs(
    s: Text,
    t: Text,
    i: int,
    p: int,
    d: nat,
    close: char,
    allow_empty: bool,
    acc: Seq<(Text, ValueModel)>,
)
    requires
        comma_swapped(s, t, i),
        close != ',' && close != ' ',
    ensures
        pairs_rest(s, p, d, close, allow_empty, acc) == pairs_rest(t, p, d, close, allow_empty, acc),
    decreases d, 1nat, s.len() - p,
{
    if 0 <= p < s.len() {
        lemma_skip(s, t, i, p + 1, false);
        lemma_name(s, t, i, p);
        let c = after_name(s, p);
        lemma_skip(s, t, i, c + 1, false);
        lemma_value(s, t, i, skip(s, c + 1), d);
        if let Ok((v, e)) = value(s, skip(s, c + 1), d) {
            if p < e <= s.len() {
                lemma_pairs(s, t, i, e, d, close, allow_empty, acc.push((name_text(s, p), v)));
            }
        }
    }
}

proof fn lemma_arguments(s: Text, t: Text, i: int, p: int, d: nat)
    requires
        comma_swapped(s, t, i),
    ensures
        arguments(s, p, d) == arguments(t, p, d),
{
    lemma_skip(s, t, i, p + 1, false);
    lemma_pairs(s, t, i, skip(s, p + 1), d, ')', false, Seq::empty());
}

proof fn lemma_directive(s: Text, t: Text, i: int, p: int, d: nat)
    requires
        comma_swapped(s, t, i),
    ensures
        directive(s, p, d) == directive(t, p, d),
{
    lemma_skip(s, t, i, p + 1, false);
    let q = skip(s, p + 1);
    lemma_name(s, t, i, q);
    lemma_arguments(s, t, i, after_name(s, q), d);
}

proof fn lemma_directives(s: Text, t: Text, i: int, p: int, d: nat, acc: Seq<DirectiveModel>)
    requires
        comma_swapped(s, t, i),
    ensures
        directives_rest(s, p, d, acc) == directives_rest(t, p, d, acc),
    decreases s.len() - p,
{
    lemma_directive(s, t, i, p, d);
    if let Ok((x, e)) = directive(s, p, d) {
        if p < e <= s.len() {
            lemma_directives(s, t, i, e, d, acc.push(x));
        }
    }
}

proof fn lemma_type(s: Text, t: Text, i: int, p: int, d: nat)
    requires
        comma_swapped(s, t, i),
    ensures
        type_ref(s, p, d) == type_ref(t, p, d),
    decreases d,
{
    lemma_name(s, t, i, p);
    lemma_skip(s, t, i, after_name(s, p) + 1, false);
    lemma_skip(s, t, i, p + 1, false);
    if d > 0 {
        lemma_type(s, t, i, skip(s, p + 1), (d - 1) as nat);
        if let Ok((_, e)) = type_ref(s, skip(s, p + 1), (d - 1) as nat) {
            lemma_skip(s, t, i, e + 1, false);
            lemma_skip(s, t, i, skip(s, e + 1) + 1, false);
        }
    }
}

proof fn lemma_default(s: Text, t: Text, i: int, p: int, d: nat)
    requires
        comma_swapped(s, t, i),
    ensures
        default_value(s, p, d) == default_value(t, p, d),
{
    lemma_skip(s, t, i, p + 1, false);
    lemma_value(s, t, i, skip(s, p + 1), d);
}

proof fn lemma_variables(s: Text, t: Text, i: int, p: int, d: nat, acc: Seq<crate::ast::VariableModel>)
    requires
        comma_swapped(s, t, i),
    ensures
        variables_rest(s, p, d, acc) == variables_rest(t, p, d, acc),
    decreases s.len() - p,
{
    if 0 <= p < s.len() {
        lemma_skip(s, t, i, p + 1, false);
        lemma_name(s, t, i, p + 1);
        let c = after_name(s, p + 1);
        lemma_skip(s, t, i, c + 1, false);
        lemma_type(s, t, i, skip(s, c + 1), d);
        if let Ok((ty, q)) = type_ref(s, skip(s, c + 1), d) {
            lemma_default(s, t, i, q, d);
            if let Ok((dv, e)) = default_value(s, q, d) {
                if p < e <= s.len() {
                    lemma_variables(
                        s,
                        t,
                        i,
                        e,
                        d,
                        acc.push(
                            crate::ast::VariableModel {
                                name: name_text(s, p + 1),
                                var_type: ty,
                                default_value: dv,
                            },
                        ),
                    );
                }
            }
        }
    }
}

proof fn lemma_variable_defs(s: Text, t: Text, i: int, p: int, d: nat)
    requires
        comma_swapped(s, t, i),
    ensures
        variable_defs(s, p, d) == variable_defs(t, p, d),
{
    lemma_skip(s, t, i, p + 1, false);
    lemma_variables(s, t, i, skip(s, p + 1), d, Seq::empty());
}

proof fn lemma_field_head(s: Text, t: Text, i: int, p: int)
    requires
        comma_swapped(s, t, i),
        name_at(s, p),
    ensures
        field_head(s, p) == field_head(t, p),
{
    lemma_name(s, t, i, p);
    let q = after_name(s, p);
    lemma_skip(s, t, i, q + 1, false);
    lemma_name(s, t, i, skip(s, q + 1));
}

proof fn lemma_type_condition(s: Text, t: Text, i: int, q: int)
    requires
        comma_swapped(s, t, i),
    ensures
        type_condition(s, q) == type_condition(t, q),
{
    lemma_name(s, t, i, q);
    lemma_name(s, t, i, after_name(s, q));
}

proof fn lemma_field(s: Text, t: Text, i: int, p: int, d: nat)
    requires
        comma_swapped(s, t, i),
        name_at(s, p),
    ensures
        field(s, p, d) == field(t, p, d),
    decreases d, 0nat, s.len() - p,
{
    lemma_field_head(s, t, i, p);
    if let Ok((_, q)) = field_head(s, p) {
        lemma_arguments(s, t, i, q, d);
        if let Ok((_, r)) = arguments(s, q, d) {
            lemma_directives(s, t, i, r, d, Seq::empty());
            if let Ok((_, u)) = directives_rest(s, r, d, Seq::empty()) {
                if d > 0 {
                    lemma_selection_set(s, t, i, u, (d - 1) as nat);
                }
            }
        }
    }
}

proof fn lemma_selection(s: Text, t: Text, i: int, p: int, d: nat)
    requires
        comma_swapped(s, t, i),
    ensures
        selection(s, p, d) == selection(t, p, d),
    decreases d, 1nat, s.len() - p,
{
    lemma_skip(s, t, i, p + 3, false);
    let q = skip(s, p + 3);
    lemma_name(s, t, i, q);
    lemma_directives(s, t, i, after_name(s, q), d, Seq::empty());
    lemma_type_condition(s, t, i, q);
    if let Ok((_, r)) = type_condition(s, q) {
        lemma_directives(s, t, i, r, d, Seq::empty());
        if let Ok((_, u)) = directives_rest(s, r, d, Seq::empty()) {
            if d > 0 {
                lemma_selection_set(s, t, i, u, (d - 1) as nat);
            }
        }
    }
    if name_at(s, p) {
        lemma_field(s, t, i, p, d);
    }
}

proof fn lemma_selections(s: Text, t: Text, i: int, p: int, d: nat, acc: Seq<SelectionModel>)
    requires
        comma_swapped(s, t, i),
    ensures
        selections_rest(s, p, d, acc) == selections_rest(t, p, d, acc),
    decreases d, 2nat, s.len() - p,
{
    if 0 <= p < s.len() {
        lemma_skip(s, t, i, p + 1, false);
        lemma_selection(s, t, i, p, d);
        if let Ok((x, e)) = selection(s, p, d) {
            if p < e <= s.len() {
                lemma_selections(s, t, i, e, d, acc.push(x));
            }
        }
    }
}

proof fn lemma_selection_set(s: Text, t: Text, i: int, p: int, d: nat)
    requires
        comma_swapped(s, t, i),
    ensures
        selection_set(s, p, d) == selection_set(t, p, d),
    decreases d, 3nat, s.len() - p,
{
    lemma_skip(s, t, i, p + 1, false);
    lemma_selections(s, t, i, skip(s, p + 1), d, Seq::empty());
}

proof fn lemma_operation(s: Text, t: Text, i: int, q: int, kind: OperationType)
    requires
        comma_swapped(s, t, i),
    ensures
        operation_rest(s, q, kind) == operation_rest(t, q, kind),
{
    lemma_name(s, t, i, q);
    let r = if name_at(s, q) { after_name(s, q) } else { q };
    lemma_variable_defs(s, t, i, r, MAX_DEPTH as nat);
    if let Ok((_, u)) = variable_defs(s, r, MAX_DEPTH as nat) {
        lemma_directives(s, t, i, u, MAX_DEPTH as nat, Seq::empty());
        if let Ok((_, v)) = directives_rest(s, u, MAX_DEPTH as nat, Seq::empty()) {
            lemma_selection_set(s, t, i, v, MAX_DEPTH as nat);
        }
    }
}

proof fn lemma_fragment(s: Text, t: Text, i: int, q: int)
    requires
        comma_swapped(s, t, i),
    ensures
        fragment_rest(s, q) == fragment_rest(t, q),
{
    lemma_name(s, t, i, q);
    let r = after_name(s, q);
    lemma_name(s, t, i, r);
    let u = after_name(s, r);
    lemma_name(s, t, i, u);
    let v = after_name(s, u);
    lemma_directive(s, t, i, v, MAX_DEPTH as nat);
    lemma_selection_set(s, t, i, v, MAX_DEPTH as nat);
    if let Ok((_, w)) = directive(s, v, MAX_DEPTH as nat) {
        lemma_selection_set(s, t, i, w, MAX_DEPTH as nat);
    }
}

proof fn lemma_definition(s: Text, t: Text, i: int, p: int)
    requires
        comma_swapped(s, t, i),
    ensures
        definition(s, p) == definition(t, p),
{
    reveal(definition);
    lemma_selection_set(s, t, i, p, MAX_DEPTH as nat);
    lemma_name(s, t, i, p);
    lemma_operation(s, t, i, after_name(s, p), OperationType::Query);
    lemma_operation(s, t, i, after_name(s, p), OperationType::Mutation);
    lemma_fragment(s, t, i, after_name(s, p));
}

proof fn lemma_definitions(s: Text, t: Text, i: int, p: int, acc: Seq<NodeModel>)
    requires
        comma_swapped(s, t, i),
    ensures
        definitions_rest(s, p, acc) == definitions_rest(t, p, acc),
    decreases s.len() - p,
{
    if 0 <= p < s.len() {
        lemma_definition(s, t, i, p);
        if let Ok((x, e)) = definition(s, p) {
            if p < e <= s.len() {
                lemma_definitions(s, t, i, e, acc.push(x));
            }
        }
    }
}

/// In a text without string literals, a comma anywhere reads exactly as a
/// space: turning one into the other leaves the outcome of the parse, tree or
/// error, unchanged. So a trailing comma before the `)` of an argument list,
/// the `}` of an object or the `]` of a list gives the same tree as a space
/// in its place.
pub proof fn lemma_comma_reads_as_space(s: Text, i: int)
    requires
        0 <= i < s.len(),
        s[i] == ',',
        forall|k: int| 0 <= k < s.len() ==> s[k] != '"',
    ensures
        document(s.update(i, ' ')) == document(s),
{
    let t = s.update(i, ' ');
    lemma_skip(s, t, i, 0, false);
    lemma_definitions(s, t, i, skip(s, 0), Seq::empty());
}

} // verus!
