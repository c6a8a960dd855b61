//! The executable parser. Each function carries out one production of
//! `grammar.rs` and is proved to give exactly the outcome the grammar states.
use vstd::prelude::*;
use crate::ast::{
    directives_model, document_model, opt_value_model, pairs_model, selections_model,
    values_model, variables_model, Directive, Field, FragmentDefinition, FragmentInline,
    FragmentSpread, InputValue, Node, NodeModel, Operation, OperationType, Selection, Type,
    VariableDefinition,
};
use crate::error::{agrees, fault, ErrorKind, Expected, Fail, Fault};
use crate::grammar::{
    arguments, default_value, definition, definitions_rest, directive, directives_rest,
    document, field, fragment_rest, has_key, list_rest, name_value, operation_rest, pairs_rest,
    selection, selection_set, selections_rest, type_ref, value, variable_defs, variables_rest,
    word_false, word_fragment, word_mutation, word_null, word_on, word_query, word_true,
    MAX_DEPTH,
};
use crate::lexical::{
    at, name_at, skip, char_at, is_digit_char, is_name_start_char, name_start_at, parse_number, parse_string,
    scan_name, skip_blank, span_is, text_of,
};

verus! {

proof fn lemma_values_push(s: Seq<InputValue>, x: InputValue)
    ensures
        values_model(s.push(x)) == values_model(s).push(x.model()),
{
    assert(s.push(x).subrange(0, s.len() as int) =~= s);
}

proof fn lemma_pairs_push(s: Seq<(String, InputValue)>, x: (String, InputValue))
    ensures
        pairs_model(s.push(x)) == pairs_model(s).push((x.0@, x.1.model())),
{
    assert(s.push(x).subrange(0, s.len() as int) =~= s);
}

proof fn lemma_pairs_index(s: Seq<(String, InputValue)>)
    ensures
        pairs_model(s).len() == s.len(),
        forall|i: int| 0 <= i < s.len() ==> #[trigger] pairs_model(s)[i] == (s[i].0@, s[i].1.model()),
    decreases s.len(),
{
    if s.len() > 0 {
        let t = s.subrange(0, s.len() - 1);
        lemma_pairs_index(t);
        assert forall|i: int| 0 <= i < s.len() implies #[trigger] pairs_model(s)[i] == (
            s[i].0@,
            s[i].1.model(),
        ) by {
            if i < s.len() - 1 {
                assert(t[i] == s[i]);
            }
        }
    }
}

/// Whether a pair named `key` is already among `acc`.
fn has_key_exec(acc: &Vec<(String, InputValue)>, key: &String) -> (r: bool)
    ensures
        r == has_key(pairs_model(acc@), key@),
{
    proof {
        lemma_pairs_index(acc@);
    }
    let mut i: usize = 0;
    while i < acc.len()
        invariant
            i <= acc.len(),
            pairs_model(acc@).len() == acc.len(),
            forall|j: int| 0 <= j < acc.len() ==> #[trigger] pairs_model(acc@)[j] == (acc@[j].0@, acc@[j].1.model()),
            forall|j: int| 0 <= j < i ==> (#[trigger] pairs_model(acc@)[j]).0 != key@,
        decreases acc.len() - i,
    {
        if acc[i].0 == *key {
            assert(pairs_model(acc@)[i as int].0 == key@);
            return true;
        }
        i = i + 1;
    }
    false
}

/// The value that starts at `p`.
pub fn parse_value(s: &Vec<char>, p: usize, d: usize) -> (r: Result<(InputValue, usize), Fault>)
    requires
        p <= s.len(),
    ensures
        agrees(r, value(s@, p as int, d as nat), |v: InputValue| v.model()),
        r matches Ok((_, e)) ==> p < e <= s.len(),
    decreases d, 0nat, s.len() - p,
{
    if p >= s.len() {
        return fault(ErrorKind::Syntax(Expected::Value), p);
    }
    let c = s[p];
    if c == '$' {
        if name_start_at(s, p + 1) {
            let e = scan_name(s, p + 1);
            return Ok((InputValue::Variable(text_of(s, p + 1, e)), skip_blank(s, e)));
        }
        return fault(ErrorKind::Syntax(Expected::Name), p + 1);
    }
    if c == '-' || is_digit_char(c) {
        return parse_number(s, p);
    }
    if c == '"' {
        return parse_string(s, p);
    }
    if c == '[' {
        if d == 0 {
            return fault(ErrorKind::TooDeep, p);
        }
        return parse_list(s, skip_blank(s, p + 1), d - 1);
    }
    if c == '{' {
        if d == 0 {
            return fault(ErrorKind::TooDeep, p);
        }
        let r = parse_pairs(s, skip_blank(s, p + 1), d - 1, '}', true);
        return match r {
            Err(f) => Err(f),
            Ok((fields, e)) => Ok((InputValue::Object(fields), e)),
        };
    }
    if is_name_start_char(c) {
        let e = scan_name(s, p);
        let v = if span_is(s, p, e, &['t', 'r', 'u', 'e']) {
            InputValue::Boolean(true)
        } else if span_is(s, p, e, &['f', 'a', 'l', 's', 'e']) {
            InputValue::Boolean(false)
        } else if span_is(s, p, e, &['n', 'u', 'l', 'l']) {
            InputValue::Null
        } else {
            InputValue::Enum(text_of(s, p, e))
        };
        proof {
            assert(['t', 'r', 'u', 'e']@ == word_true());
            assert(['f', 'a', 'l', 's', 'e']@ == word_false());
            assert(['n', 'u', 'l', 'l']@ == word_null());
        }
        assert(v.model() == name_value(s@.subrange(p as int, e as int)));
        return Ok((v, skip_blank(s, e)));
    }
    fault(ErrorKind::Syntax(Expected::Value), p)
}

/// The items of a list value from `p` up to its `]`.
pub fn parse_list(s: &Vec<char>, p: usize, d: usize) -> (r: Result<(InputValue, usize), Fault>)
    requires
        p <= s.len(),
    ensures
        agrees(r, list_rest(s@, p as int, d as nat, Seq::empty()), |v: InputValue| v.model()),
        r matches Ok((_, e)) ==> p < e <= s.len(),
    decreases d, 1nat, s.len() - p,
{
    let mut items: Vec<InputValue> = Vec::new();
    let mut i = p;
    loop
        invariant
            p <= i <= s.len(),
            list_rest(s@, i as int, d as nat, values_model(items@)) == list_rest(
                s@,
                p as int,
                d as nat,
                Seq::empty(),
            ),
        decreases s.len() - i,
    {
        if i >= s.len() {
            return fault(ErrorKind::Syntax(Expected::Char(']')), i);
        }
        if s[i] == ']' {
            return Ok((InputValue::List(items), skip_blank(s, i + 1)));
        }
        match parse_value(s, i, d) {
            Err(f) => {
                return Err(f);
            },
            Ok((v, e)) => {
                proof {
                    lemma_values_push(items@, v);
                }
                items.push(v);
                i = e;
            },
        }
    }
}

/// `name: value` pairs from `p` up to `close`.
pub fn parse_pairs(s: &Vec<char>, p: usize, d: usize, close: char, allow_empty: bool) -> (r: Result<
    (Vec<(String, InputValue)>, usize),
    Fault,
>)
    requires
        p <= s.len(),
    ensures
        agrees(
            r,
            pairs_rest(s@, p as int, d as nat, close, allow_empty, Seq::empty()),
            |v: Vec<(String, InputValue)>| pairs_model(v@),
        ),
        r matches Ok((_, e)) ==> p < e <= s.len(),
    decreases d, 1nat, s.len() - p,
{
    let mut acc: Vec<(String, InputValue)> = Vec::new();
    let mut i = p;
    loop
        invariant
            p <= i <= s.len(),
            pairs_rest(s@, i as int, d as nat, close, allow_empty, pairs_model(acc@)) == pairs_rest(
                s@,
                p as int,
                d as nat,
                close,
                allow_empty,
                Seq::empty(),
            ),
            acc.len() == 0 ==> i == p,
        decreases s.len() - i,
    {
        proof {
            lemma_pairs_index(acc@);
        }
        if i >= s.len() {
            return fault(ErrorKind::Syntax(Expected::Char(close)), i);
        }
        if s[i] == close {
            if acc.len() == 0 && !allow_empty {
                return fault(ErrorKind::Syntax(Expected::Name), i);
            }
            return Ok((acc, skip_blank(s, i + 1)));
        }
        if !is_name_start_char(s[i]) {
            return fault(ErrorKind::Syntax(Expected::Name), i);
        }
        let ne = scan_name(s, i);
        let key = text_of(s, i, ne);
        let c = skip_blank(s, ne);
        if has_key_exec(&acc, &key) {
            return fault(ErrorKind::DuplicateKey, i);
        }
        if !char_at(s, c, ':') {
            return fault(ErrorKind::Syntax(Expected::Char(':')), c);
        }
        match parse_value(s, skip_blank(s, c + 1), d) {
            Err(f) => {
                return Err(f);
            },
            Ok((v, e)) => {
                proof {
                    lemma_pairs_push(acc@, (key, v));
                }
                acc.push((key, v));
                i = e;
            },
        }
    }
}

/// An optional argument list at `p`.
pub fn parse_arguments(s: &Vec<char>, p: usize, d: usize) -> (r: Result<
    (Vec<(String, InputValue)>, usize),
    Fault,
>)
    requires
        p <= s.len(),
    ensures
        agrees(r, arguments(s@, p as int, d as nat), |v: Vec<(String, InputValue)>| pairs_model(v@)),
        r matches Ok((_, e)) ==> p <= e <= s.len(),
{
    if char_at(s, p, '(') {
        parse_pairs(s, skip_blank(s, p + 1), d, ')', false)
    } else {
        Ok((Vec::new(), p))
    }
}

/// A directive whose `@` stands at `p`.
pub fn parse_directive(s: &Vec<char>, p: usize, d: usize) -> (r: Result<(Directive, usize), Fault>)
    requires
        p < s.len(),
    ensures
        agrees(r, directive(s@, p as int, d as nat), |x: Directive| x.model()),
        r matches Ok((_, e)) ==> p < e <= s.len(),
{
    if s[p] != '@' {
        return fault(ErrorKind::Syntax(Expected::Char('@')), p);
    }
    let q = skip_blank(s, p + 1);
    if !name_start_at(s, q) {
        return fault(ErrorKind::Syntax(Expected::Name), q);
    }
    let qe = scan_name(s, q);
    match parse_arguments(s, skip_blank(s, qe), d) {
        Err(f) => Err(f),
        Ok((arguments, e)) => Ok((Directive { name: text_of(s, q, qe), arguments }, e)),
    }
}

/// The directives from `p` on.
pub fn parse_directives(s: &Vec<char>, p: usize, d: usize) -> (r: Result<(Vec<Directive>, usize), Fault>)
    requires
        p <= s.len(),
    ensures
        agrees(
            r,
            directives_rest(s@, p as int, d as nat, Seq::empty()),
            |v: Vec<Directive>| directives_model(v@),
        ),
        r matches Ok((_, e)) ==> p <= e <= s.len(),
{
    let mut acc: Vec<Directive> = Vec::new();
    let mut i = p;
    proof {
        assert(directives_model(acc@) =~= Seq::empty());
    }
    while char_at(s, i, '@')
        invariant
            p <= i <= s.len(),
            directives_rest(s@, i as int, d as nat, directives_model(acc@)) == directives_rest(
                s@,
                p as int,
                d as nat,
                Seq::empty(),
            ),
        decreases s.len() - i,
    {
        match parse_directive(s, i, d) {
            Err(f) => {
                return Err(f);
            },
            Ok((x, e)) => {
                proof {
                    assert(acc@.push(x).map_values(|d: Directive| d.model()) =~= acc@.map_values(
                        |d: Directive| d.model(),
                    ).push(x.model()));
                }
                acc.push(x);
                i = e;
            },
        }
    }
    Ok((acc, i))
}

/// A type reference at `p`.
pub fn parse_type(s: &Vec<char>, p: usize, d: usize) -> (r: Result<(Type, usize), Fault>)
    requires
        p <= s.len(),
    ensures
        agrees(r, type_ref(s@, p as int, d as nat), |t: Type| t.model()),
        r matches Ok((_, e)) ==> p < e <= s.len(),
    decreases d,
{
    if name_start_at(s, p) {
        let ne = scan_name(s, p);
        let e = skip_blank(s, ne);
        let name = text_of(s, p, ne);
        if char_at(s, e, '!') {
            return Ok((Type::NonNullNamed(name), skip_blank(s, e + 1)));
        }
        return Ok((Type::Named(name), e));
    }
    if !char_at(s, p, '[') {
        return fault(ErrorKind::Syntax(Expected::Type), p);
    }
    if d == 0 {
        return fault(ErrorKind::TooDeep, p);
    }
    match parse_type(s, skip_blank(s, p + 1), d - 1) {
        Err(f) => Err(f),
        Ok((t, e)) => {
            if !char_at(s, e, ']') {
                return fault(ErrorKind::Syntax(Expected::Char(']')), e);
            }
            let f = skip_blank(s, e + 1);
            if char_at(s, f, '!') {
                Ok((Type::NonNullList(Box::new(t)), skip_blank(s, f + 1)))
            } else {
                Ok((Type::List(Box::new(t)), f))
            }
        },
    }
}

/// An optional default value at `p`.
pub fn parse_default(s: &Vec<char>, p: usize, d: usize) -> (r: Result<(Option<InputValue>, usize), Fault>)
    requires
        p <= s.len(),
    ensures
        agrees(r, default_value(s@, p as int, d as nat), |o: Option<InputValue>| opt_value_model(o)),
        r matches Ok((_, e)) ==> p <= e <= s.len(),
{
    if !char_at(s, p, '=') {
        return Ok((None, p));
    }
    match parse_value(s, skip_blank(s, p + 1), d) {
        Err(f) => Err(f),
        Ok((v, e)) => Ok((Some(v), e)),
    }
}

/// Optional variable definitions at `p`.
pub fn parse_variable_defs(s: &Vec<char>, p: usize, d: usize) -> (r: Result<
    (Vec<VariableDefinition>, usize),
    Fault,
>)
    requires
        p <= s.len(),
    ensures
        agrees(
            r,
            variable_defs(s@, p as int, d as nat),
            |v: Vec<VariableDefinition>| variables_model(v@),
        ),
        r matches Ok((_, e)) ==> p <= e <= s.len(),
{
    let mut acc: Vec<VariableDefinition> = Vec::new();
    if !char_at(s, p, '(') {
        proof {
            assert(variables_model(acc@) =~= Seq::empty());
        }
        return Ok((acc, p));
    }
    let start = skip_blank(s, p + 1);
    let mut i = start;
    proof {
        assert(variables_model(acc@) =~= Seq::empty());
    }
    loop
        invariant
            p < start <= i <= s.len(),
            at(s@, p as int, '('),
            start == skip(s@, p + 1),
            variables_rest(s@, i as int, d as nat, variables_model(acc@)) == variables_rest(
                s@,
                start as int,
                d as nat,
                Seq::empty(),
            ),
        decreases s.len() - i,
    {
        if i >= s.len() {
            return fault(ErrorKind::Syntax(Expected::Char(')')), i);
        }
        if s[i] == ')' {
            return Ok((acc, skip_blank(s, i + 1)));
        }
        if s[i] != '$' {
            return fault(ErrorKind::Syntax(Expected::Char('$')), i);
        }
        if !name_start_at(s, i + 1) {
            return fault(ErrorKind::Syntax(Expected::Name), i + 1);
        }
        let ne = scan_name(s, i + 1);
        let c = skip_blank(s, ne);
        if !char_at(s, c, ':') {
            return fault(ErrorKind::Syntax(Expected::Char(':')), c);
        }
        let (var_type, q) = match parse_type(s, skip_blank(s, c + 1), d) {
            Err(f) => {
                return Err(f);
            },
            Ok(x) => x,
        };
        let (dv, e) = match parse_default(s, q, d) {
            Err(f) => {
                return Err(f);
            },
            Ok(x) => x,
        };
        let x = VariableDefinition { name: text_of(s, i + 1, ne), var_type, default_value: dv };
        proof {
            assert(acc@.push(x).map_values(|v: VariableDefinition| v.model()) =~= acc@.map_values(
                |v: VariableDefinition| v.model(),
            ).push(x.model()));
        }
        acc.push(x);
        i = e;
    }
}

/// A field whose first name starts at `p`.
pub fn parse_field(s: &Vec<char>, p: usize, d: usize) -> (r: Result<(Selection, usize), Fault>)
    requires
        name_at(s@, p as int),
    ensures
        agrees(r, field(s@, p as int, d as nat), |x: Selection| x.model()),
        r matches Ok((_, e)) ==> p < e <= s.len(),
    decreases d, 0nat, s.len() - p,
{
    let ne = scan_name(s, p);
    let q = skip_blank(s, ne);
    let (alias, name, q2) = if char_at(s, q, ':') {
        let r = skip_blank(s, q + 1);
        if !name_start_at(s, r) {
            return fault(ErrorKind::Syntax(Expected::Name), r);
        }
        let re = scan_name(s, r);
        (Some(text_of(s, p, ne)), text_of(s, r, re), skip_blank(s, re))
    } else {
        (None, text_of(s, p, ne), q)
    };
    let (arguments, r) = match parse_arguments(s, q2, d) {
        Err(f) => {
            return Err(f);
        },
        Ok(x) => x,
    };
    let (directives, t) = match parse_directives(s, r, d) {
        Err(f) => {
            return Err(f);
        },
        Ok(x) => x,
    };
    if !char_at(s, t, '{') {
        let f = Field { alias, name, arguments, directives, selection_set: Vec::new() };
        return Ok((Selection::Field(Box::new(f)), t));
    }
    if d == 0 {
        return fault(ErrorKind::TooDeep, t);
    }
    match parse_selection_set(s, t, d - 1) {
        Err(f) => Err(f),
        Ok((selection_set, e)) => {
            let f = Field { alias, name, arguments, directives, selection_set };
            Ok((Selection::Field(Box::new(f)), e))
        },
    }
}

/// A selection at `p`: a fragment spread, an inline fragment or a field.
pub fn parse_selection(s: &Vec<char>, p: usize, d: usize) -> (r: Result<(Selection, usize), Fault>)
    requires
        p < s.len(),
    ensures
        agrees(r, selection(s@, p as int, d as nat), |x: Selection| x.model()),
        r matches Ok((_, e)) ==> p < e <= s.len(),
    decreases d, 1nat, s.len() - p,
{
    if !(char_at(s, p, '.') && char_at(s, p + 1, '.') && char_at(s, p + 2, '.')) {
        if name_start_at(s, p) {
            return parse_field(s, p, d);
        }
        return fault(ErrorKind::Syntax(Expected::Selection), p);
    }
    let q = skip_blank(s, p + 3);
    let named = name_start_at(s, q);
    let qe = if named { scan_name(s, q) } else { q };
    let on = named && span_is(s, q, qe, &['o', 'n']);
    proof {
        assert(['o', 'n']@ == word_on());
    }
    if named && !on {
        return match parse_directives(s, skip_blank(s, qe), d) {
            Err(f) => Err(f),
            Ok((directives, e)) => {
                let x = FragmentSpread { name: text_of(s, q, qe), directives };
                Ok((Selection::FragmentSpread(Box::new(x)), e))
            },
        };
    }
    let (type_condition, r) = if on {
        let r0 = skip_blank(s, qe);
        if !name_start_at(s, r0) {
            return fault(ErrorKind::Syntax(Expected::Name), r0);
        }
        let re = scan_name(s, r0);
        (Some(text_of(s, r0, re)), skip_blank(s, re))
    } else {
        (None, q)
    };
    let (directives, t) = match parse_directives(s, r, d) {
        Err(f) => {
            return Err(f);
        },
        Ok(x) => x,
    };
    if !char_at(s, t, '{') {
        return fault(ErrorKind::Syntax(Expected::Char('{')), t);
    }
    if d == 0 {
        return fault(ErrorKind::TooDeep, t);
    }
    match parse_selection_set(s, t, d - 1) {
        Err(f) => Err(f),
        Ok((selection_set, e)) => {
            let x = FragmentInline { type_condition, directives, selection_set };
            Ok((Selection::FragmentInline(Box::new(x)), e))
        },
    }
}

/// A selection set whose `{` stands at `p`.
pub fn parse_selection_set(s: &Vec<char>, p: usize, d: usize) -> (r: Result<(Vec<Selection>, usize), Fault>)
    requires
        p <= s.len(),
    ensures
        agrees(r, selection_set(s@, p as int, d as nat), |v: Vec<Selection>| selections_model(v@)),
        r matches Ok((_, e)) ==> p < e <= s.len(),
    decreases d, 3nat, s.len() - p,
{
    if !char_at(s, p, '{') {
        return fault(ErrorKind::Syntax(Expected::Char('{')), p);
    }
    let start = skip_blank(s, p + 1);
    let mut acc: Vec<Selection> = Vec::new();
    let mut i = start;
    loop
        invariant
            p < start <= i <= s.len(),
            at(s@, p as int, '{'),
            start == skip(s@, p + 1),
            selections_rest(s@, i as int, d as nat, selections_model(acc@)) == selections_rest(
                s@,
                start as int,
                d as nat,
                Seq::empty(),
            ),
        decreases s.len() - i,
    {
        if i >= s.len() {
            return fault(ErrorKind::Syntax(Expected::Char('}')), i);
        }
        if s[i] == '}' {
            if acc.len() == 0 {
                return fault(ErrorKind::Syntax(Expected::Selection), i);
            }
            return Ok((acc, skip_blank(s, i + 1)));
        }
        match parse_selection(s, i, d) {
            Err(f) => {
                return Err(f);
            },
            Ok((x, e)) => {
                proof {
                    assert(acc@.push(x).subrange(0, acc@.len() as int) =~= acc@);
                }
                acc.push(x);
                i = e;
            },
        }
    }
}

/// An operation after its keyword, from `q`.
pub fn parse_operation_rest(s: &Vec<char>, q: usize, kind: OperationType) -> (r: Result<(Node, usize), Fault>)
    requires
        q <= s.len(),
    ensures
        agrees(r, operation_rest(s@, q as int, kind), |n: Node| n.model()),
        r matches Ok((_, e)) ==> q < e <= s.len(),
{
    let named = name_start_at(s, q);
    let (name, r) = if named {
        let qe = scan_name(s, q);
        (Some(text_of(s, q, qe)), skip_blank(s, qe))
    } else {
        (None, q)
    };
    let (variable_definitions, t) = match parse_variable_defs(s, r, MAX_DEPTH) {
        Err(f) => {
            return Err(f);
        },
        Ok(x) => x,
    };
    let (directives, u) = match parse_directives(s, t, MAX_DEPTH) {
        Err(f) => {
            return Err(f);
        },
        Ok(x) => x,
    };
    match parse_selection_set(s, u, MAX_DEPTH) {
        Err(f) => Err(f),
        Ok((selection_set, e)) => {
            let o = Operation { kind, name, variable_definitions, directives, selection_set };
            Ok((Node::Operation(o), e))
        },
    }
}

/// A fragment definition after its keyword, from `q`.
pub fn parse_fragment_rest(s: &Vec<char>, q: usize) -> (r: Result<(Node, usize), Fault>)
    requires
        q <= s.len(),
    ensures
        agrees(r, fragment_rest(s@, q as int), |n: Node| n.model()),
        r matches Ok((_, e)) ==> q < e <= s.len(),
{
    proof {
        assert(['o', 'n']@ == word_on());
    }
    if !name_start_at(s, q) {
        return fault(ErrorKind::Syntax(Expected::Name), q);
    }
    let qe = scan_name(s, q);
    if span_is(s, q, qe, &['o', 'n']) {
        return fault(ErrorKind::Syntax(Expected::Name), q);
    }
    let r = skip_blank(s, qe);
    if !name_start_at(s, r) {
        return fault(ErrorKind::Syntax(Expected::Keyword), r);
    }
    let re = scan_name(s, r);
    if !span_is(s, r, re, &['o', 'n']) {
        return fault(ErrorKind::Syntax(Expected::Keyword), r);
    }
    let t = skip_blank(s, re);
    if !name_start_at(s, t) {
        return fault(ErrorKind::Syntax(Expected::Name), t);
    }
    let te = scan_name(s, t);
    let u = skip_blank(s, te);
    let (directive, v) = if char_at(s, u, '@') {
        match parse_directive(s, u, MAX_DEPTH) {
            Err(f) => {
                return Err(f);
            },
            Ok((x, v)) => (Some(x), v),
        }
    } else {
        (None, u)
    };
    match parse_selection_set(s, v, MAX_DEPTH) {
        Err(f) => Err(f),
        Ok((selection_set, e)) => {
            let x = FragmentDefinition {
                name: text_of(s, q, qe),
                type_condition: text_of(s, t, te),
                directive,
                selection_set,
            };
            Ok((Node::FragmentDefinition(x), e))
        },
    }
}

/// A top-level definition at `p`.
pub fn parse_definition(s: &Vec<char>, p: usize) -> (r: Result<(Node, usize), Fault>)
    requires
        p < s.len(),
    ensures
        agrees(r, definition(s@, p as int), |n: Node| n.model()),
        r matches Ok((_, e)) ==> p < e <= s.len(),
{
    reveal(definition);
    if s[p] == '{' {
        return match parse_selection_set(s, p, MAX_DEPTH) {
            Err(f) => Err(f),
            Ok((selection_set, e)) => {
                let o = Operation {
                    kind: OperationType::Query,
                    name: None,
                    variable_definitions: Vec::new(),
                    directives: Vec::new(),
                    selection_set,
                };
                proof {
                    assert(variables_model(o.variable_definitions@) =~= Seq::empty());
                    assert(directives_model(o.directives@) =~= Seq::empty());
                }
                Ok((Node::Operation(o), e))
            },
        };
    }
    if !name_start_at(s, p) {
        return fault(ErrorKind::Syntax(Expected::Definition), p);
    }
    let pe = scan_name(s, p);
    let q = skip_blank(s, pe);
    proof {
        assert(['q', 'u', 'e', 'r', 'y']@ == word_query());
        assert(['m', 'u', 't', 'a', 't', 'i', 'o', 'n']@ == word_mutation());
        assert(['f', 'r', 'a', 'g', 'm', 'e', 'n', 't']@ == word_fragment());
    }
    if span_is(s, p, pe, &['q', 'u', 'e', 'r', 'y']) {
        parse_operation_rest(s, q, OperationType::Query)
    } else if span_is(s, p, pe, &['m', 'u', 't', 'a', 't', 'i', 'o', 'n']) {
        parse_operation_rest(s, q, OperationType::Mutation)
    } else if span_is(s, p, pe, &['f', 'r', 'a', 'g', 'm', 'e', 'n', 't']) {
        parse_fragment_rest(s, q)
    } else {
        fault(ErrorKind::Syntax(Expected::Definition), p)
    }
}

/// A whole document: its definitions in source order.
pub fn parse_document(s: &Vec<char>) -> (r: Result<Vec<Node>, Fault>)
    ensures
        match r {
            Ok(v) => document(s@) == Ok::<Seq<NodeModel>, Fail>(document_model(v@)),
            Err(f) => document(s@) == Err::<Seq<NodeModel>, Fail>((f.kind, f.offset as int)),
        },
{
    let start = skip_blank(s, 0);
    let mut acc: Vec<Node> = Vec::new();
    let mut i = start;
    proof {
        assert(document_model(acc@) =~= Seq::empty());
    }
    loop
        invariant
            start <= i <= s.len(),
            start == skip(s@, 0),
            definitions_rest(s@, i as int, document_model(acc@)) == definitions_rest(
                s@,
                start as int,
                Seq::empty(),
            ),
        decreases s.len() - i,
    {
        if i >= s.len() {
            if acc.len() == 0 {
                return fault(ErrorKind::Syntax(Expected::Definition), i);
            }
            return Ok(acc);
        }
        match parse_definition(s, i) {
            Err(f) => {
                return Err(f);
            },
            Ok((x, e)) => {
                proof {
                    assert(acc@.push(x).map_values(|n: Node| n.model()) =~= acc@.map_values(
                        |n: Node| n.model(),
                    ).push(x.model()));
                }
                acc.push(x);
                i = e;
            },
        }
    }
}

} // verus!
