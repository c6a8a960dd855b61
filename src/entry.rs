//! The public entry points: parsing a whole document, and recognizing a
//! single grammar rule at the start of a text.
use vstd::prelude::*;
use crate::ast::{document_model, Document, InputValue, NodeModel, OperationType, Selection, Text, ValueModel};
use crate::error::{ErrorKind, Expected, Fail, Fault, ParseError};
use crate::grammar::{
    after_name, arguments, directive, document, field, fragment_rest, operation_rest,
    selection, selection_set, value, variable_defs, word_fragment, word_mutation, word_query,
    MAX_DEPTH,
};
use crate::lexical::{
    at, chars_of, escape, is_digit, numeral, scan_numeral, name_at, name_end, name_text, skip, string_literal,
    is_name_start_char, parse_escape, parse_string, scan_name, skip_blank, span_is,
};
use crate::parser::{
    parse_arguments, parse_directive, parse_document, parse_field,
    parse_fragment_rest, parse_operation_rest, parse_selection, parse_selection_set, parse_value,
    parse_variable_defs,
};

verus! {

/// The 1-based line and column of character offset `off`.
pub open spec fn position(s: Text, off: int) -> (int, int)
    decreases off,
{
    if off <= 0 {
        (1, 1)
    } else if off > s.len() {
        position(s, s.len() as int)
    } else {
        let (line, column) = position(s, off - 1);
        if s[off - 1] == '\n' {
            (line + 1, 1)
        } else {
            (line, column + 1)
        }
    }
}

/// The error of a whole parse, positioned in `s` (which, as any text in
/// memory, is shorter than `usize::MAX`; the line and column are 0 otherwise).
pub fn locate(s: &Vec<char>, f: Fault) -> (r: ParseError)
    ensures
        r.kind == f.kind,
        r.offset == f.offset,
        s.len() < usize::MAX ==> (r.line as int, r.column as int) == position(s@, f.offset as int),
{
    if s.len() == usize::MAX {
        return ParseError { kind: f.kind, offset: f.offset, line: 0, column: 0 };
    }
    let end = if f.offset < s.len() { f.offset } else { s.len() };
    let mut line: usize = 1;
    let mut column: usize = 1;
    let mut i: usize = 0;
    while i < end
        invariant
            end <= s.len() < usize::MAX,
            end as int == if f.offset < s.len() { f.offset as int } else { s.len() as int },
            i <= end,
            line <= i + 1,
            column <= i + 1,
            (line as int, column as int) == position(s@, i as int),
        decreases end - i,
    {
        if s[i] == '\n' {
            line = line + 1;
            column = 1;
        } else {
            column = column + 1;
        }
        i = i + 1;
    }
    ParseError { kind: f.kind, offset: f.offset, line, column }
}

/// Parses a whole query document. It succeeds exactly when the grammar matches
/// the entire input, and then gives its definitions in source order; otherwise
/// it gives the first error, with its character offset, line and column.
pub fn parse(input: &str) -> (r: Result<Document, ParseError>)
    ensures
        match r {
            Ok(d) => document(input@) == Ok::<Seq<NodeModel>, Fail>(document_model(d@)),
            Err(e) => document(input@) == Err::<Seq<NodeModel>, Fail>((e.kind, e.offset as int))
                && (input@.len() < usize::MAX ==> (e.line as int, e.column as int) == position(
                input@,
                e.offset as int,
            )),
        },
{
    let s = chars_of(input);
    match parse_document(&s) {
        Ok(d) => Ok(d),
        Err(f) => Err(locate(&s, f)),
    }
}

/// The grammar rules that can be recognized on their own.
#[allow(non_camel_case_types)]
#[derive(Clone, Copy, Debug, PartialEq, Eq, Structural)]
pub enum Rule {
    integer,
    float,
    null,
    boolean,
    escape,
    string,
    comment,
    name,
    value,
    object,
    args,
    directive,
    variable_defs,
    field,
    fragment_spread,
    fragment_inline,
    selection_set,
    fragment_def,
    query,
    mutation,
    document,
}

pub open spec fn end_of<M>(r: Result<(M, int), Fail>) -> Result<int, Fail> {
    match r {
        Ok((_, e)) => Ok(e),
        Err(f) => Err(f),
    }
}

/// The end of a value at the start of `s`, if `ok` accepts the value.
pub open spec fn value_of_kind(s: Text, ok: spec_fn(ValueModel) -> bool) -> Result<int, Fail> {
    match value(s, 0, MAX_DEPTH as nat) {
        Ok((v, e)) => if ok(v) {
            Ok(e)
        } else {
            Err((ErrorKind::Syntax(Expected::Value), 0))
        },
        Err(f) => Err(f),
    }
}

/// The end of the definition `rest`, if `s` starts with the keyword `kw`.
pub open spec fn keyword_then(s: Text, kw: Text, rest: Result<(NodeModel, int), Fail>) -> Result<int, Fail> {
    if name_at(s, 0) && name_text(s, 0) == kw {
        end_of(rest)
    } else {
        Err((ErrorKind::Syntax(Expected::Keyword), 0))
    }
}

/// Where `rule` matches at the start of `s`: the position after the match and
/// the blanks that follow it, or the error that stops the match.
pub open spec fn rule_end(rule: Rule, s: Text) -> Result<int, Fail> {
    let d = MAX_DEPTH as nat;
    match rule {
        Rule::integer | Rule::float => if at(s, 0, '-') || (s.len() > 0 && is_digit(s[0])) {
            match numeral(s, 0) {
                Ok((is_float, e)) => if is_float == (rule == Rule::float) {
                    Ok(e)
                } else {
                    Err((ErrorKind::Syntax(Expected::Value), 0))
                },
                Err(f) => Err(f),
            }
        } else {
            Err((ErrorKind::Syntax(Expected::Digit), 0))
        },
        Rule::null => value_of_kind(s, |v: ValueModel| v is Null),
        Rule::boolean => value_of_kind(s, |v: ValueModel| v is Boolean),
        Rule::escape => end_of(escape(s, 0)),
        Rule::string => end_of(string_literal(s, 0)),
        Rule::comment => if at(s, 0, '#') {
            Ok(skip(s, 0))
        } else {
            Err((ErrorKind::Syntax(Expected::Char('#')), 0))
        },
        Rule::name => if name_at(s, 0) {
            Ok(name_end(s, 0))
        } else {
            Err((ErrorKind::Syntax(Expected::Name), 0))
        },
        Rule::value => end_of(value(s, 0, d)),
        Rule::object => if at(s, 0, '{') {
            end_of(value(s, 0, d))
        } else {
            Err((ErrorKind::Syntax(Expected::Char('{')), 0))
        },
        Rule::args => if at(s, 0, '(') {
            end_of(arguments(s, 0, d))
        } else {
            Err((ErrorKind::Syntax(Expected::Char('(')), 0))
        },
        Rule::directive => end_of(directive(s, 0, d)),
        Rule::variable_defs => if at(s, 0, '(') {
            end_of(variable_defs(s, 0, d))
        } else {
            Err((ErrorKind::Syntax(Expected::Char('(')), 0))
        },
        Rule::field => if name_at(s, 0) {
            end_of(field(s, 0, d))
        } else {
            Err((ErrorKind::Syntax(Expected::Name), 0))
        },
        Rule::fragment_spread => match selection(s, 0, d) {
            Ok((x, e)) => if x is Spread {
                Ok(e)
            } else {
                Err((ErrorKind::Syntax(Expected::Selection), 0))
            },
            Err(f) => Err(f),
        },
        Rule::fragment_inline => match selection(s, 0, d) {
            Ok((x, e)) => if x is Inline {
                Ok(e)
            } else {
                Err((ErrorKind::Syntax(Expected::Selection), 0))
            },
            Err(f) => Err(f),
        },
        Rule::selection_set => end_of(selection_set(s, 0, d)),
        Rule::fragment_def => keyword_then(s, word_fragment(), fragment_rest(s, after_name(s, 0))),
        Rule::query => keyword_then(
            s,
            word_query(),
            operation_rest(s, after_name(s, 0), OperationType::Query),
        ),
        Rule::mutation => keyword_then(
            s,
            word_mutation(),
            operation_rest(s, after_name(s, 0), OperationType::Mutation),
        ),
        Rule::document => match document(s) {
            Ok(_) => Ok(s.len() as int),
            Err(f) => Err(f),
        },
    }
}

/// Recognizes single grammar rules.
pub struct GraphQLParser;

fn end_or<T>(r: Result<(T, usize), Fault>) -> (e: Result<usize, Fault>)
    ensures
        e == match r {
            Ok((_, x)) => Ok::<usize, Fault>(x),
            Err(f) => Err::<usize, Fault>(f),
        },
{
    match r {
        Ok((_, x)) => Ok(x),
        Err(f) => Err(f),
    }
}

impl GraphQLParser {
    /// Matches `rule` at the start of `input` and gives the character offset
    /// after the match and the blanks that follow it. The match need not reach
    /// the end of the input, except for `Rule::document`.
    #[verifier::rlimit(100)]
    #[verifier::spinoff_prover]
    pub fn parse_str(rule: Rule, input: &str) -> (r: Result<usize, ParseError>)
        ensures
            match r {
                Ok(e) => rule_end(rule, input@) == Ok::<int, Fail>(e as int),
                Err(x) => rule_end(rule, input@) == Err::<int, Fail>((x.kind, x.offset as int))
                    && (input@.len() < usize::MAX ==> (x.line as int, x.column as int)
                    == position(input@, x.offset as int)),
            },
    {
        let s = chars_of(input);
        let d = MAX_DEPTH;
        let first_is = |c: char| -> (b: bool)
            ensures
                b == at(s@, 0, c),
            { s.len() > 0 && s[0] == c };
        let numeric = s.len() > 0 && (s[0] == '-' || ('0' <= s[0] && s[0] <= '9'));
        let named = s.len() > 0 && is_name_start_char(s[0]);
        let outcome: Result<usize, Fault> = match rule {
            Rule::integer | Rule::float => {
                if !numeric {
                    Err(Fault { kind: ErrorKind::Syntax(Expected::Digit), offset: 0 })
                } else {
                    match scan_numeral(&s, 0) {
                        Ok((is_float, e)) => {
                            if is_float == (rule == Rule::float) {
                                Ok(e)
                            } else {
                                Err(Fault { kind: ErrorKind::Syntax(Expected::Value), offset: 0 })
                            }
                        },
                        Err(f) => Err(f),
                    }
                }
            },
            Rule::null | Rule::boolean => match parse_value(&s, 0, d) {
                Ok((v, e)) => {
                    let ok = match v {
                        InputValue::Null => rule == Rule::null,
                        InputValue::Boolean(_) => rule == Rule::boolean,
                        _ => false,
                    };
                    if ok {
                        Ok(e)
                    } else {
                        Err(Fault { kind: ErrorKind::Syntax(Expected::Value), offset: 0 })
                    }
                },
                Err(f) => Err(f),
            },
            Rule::escape => {
                if s.len() == 0 {
                    Err(Fault { kind: ErrorKind::InvalidEscape, offset: 0 })
                } else {
                    end_or(parse_escape(&s, 0))
                }
            },
            Rule::string => end_or(parse_string(&s, 0)),
            Rule::comment => {
                if first_is('#') {
                    Ok(skip_blank(&s, 0))
                } else {
                    Err(Fault { kind: ErrorKind::Syntax(Expected::Char('#')), offset: 0 })
                }
            },
            Rule::name => {
                if named {
                    Ok(scan_name(&s, 0))
                } else {
                    Err(Fault { kind: ErrorKind::Syntax(Expected::Name), offset: 0 })
                }
            },
            Rule::value => end_or(parse_value(&s, 0, d)),
            Rule::object => {
                if first_is('{') {
                    end_or(parse_value(&s, 0, d))
                } else {
                    Err(Fault { kind: ErrorKind::Syntax(Expected::Char('{')), offset: 0 })
                }
            },
            Rule::args => {
                if first_is('(') {
                    end_or(parse_arguments(&s, 0, d))
                } else {
                    Err(Fault { kind: ErrorKind::Syntax(Expected::Char('(')), offset: 0 })
                }
            },
            Rule::directive => {
                if s.len() == 0 {
                    Err(Fault { kind: ErrorKind::Syntax(Expected::Char('@')), offset: 0 })
                } else {
                    end_or(parse_directive(&s, 0, d))
                }
            },
            Rule::variable_defs => {
                if first_is('(') {
                    end_or(parse_variable_defs(&s, 0, d))
                } else {
                    Err(Fault { kind: ErrorKind::Syntax(Expected::Char('(')), offset: 0 })
                }
            },
            Rule::field => {
                if named {
                    end_or(parse_field(&s, 0, d))
                } else {
                    Err(Fault { kind: ErrorKind::Syntax(Expected::Name), offset: 0 })
                }
            },
            Rule::fragment_spread | Rule::fragment_inline => {
                if s.len() == 0 {
                    Err(Fault { kind: ErrorKind::Syntax(Expected::Selection), offset: 0 })
                } else {
                    match parse_selection(&s, 0, d) {
                        Ok((x, e)) => {
                            let ok = match x {
                                Selection::FragmentSpread(_) => rule
                                    == Rule::fragment_spread,
                                Selection::FragmentInline(_) => rule
                                    == Rule::fragment_inline,
                                _ => false,
                            };
                            if ok {
                                Ok(e)
                            } else {
                                Err(
                                    Fault {
                                        kind: ErrorKind::Syntax(Expected::Selection),
                                        offset: 0,
                                    },
                                )
                            }
                        },
                        Err(f) => Err(f),
                    }
                }
            },
            Rule::selection_set => end_or(parse_selection_set(&s, 0, d)),
            Rule::fragment_def | Rule::query | Rule::mutation => {
                let e = if named { scan_name(&s, 0) } else { 0 };
                proof {
                    assert(['q', 'u', 'e', 'r', 'y']@ == word_query());
                    assert(['m', 'u', 't', 'a', 't', 'i', 'o', 'n']@ == word_mutation());
                    assert(['f', 'r', 'a', 'g', 'm', 'e', 'n', 't']@ == word_fragment());
                }
                let kw_ok = named && match rule {
                    Rule::fragment_def => span_is(&s, 0, e, &['f', 'r', 'a', 'g', 'm', 'e', 'n', 't']),
                    Rule::query => span_is(&s, 0, e, &['q', 'u', 'e', 'r', 'y']),
                    _ => span_is(&s, 0, e, &['m', 'u', 't', 'a', 't', 'i', 'o', 'n']),
                };
                if !kw_ok {
                    Err(Fault { kind: ErrorKind::Syntax(Expected::Keyword), offset: 0 })
                } else {
                    let q = skip_blank(&s, e);
                    match rule {
                        Rule::fragment_def => end_or(parse_fragment_rest(&s, q)),
                        Rule::query => end_or(parse_operation_rest(&s, q, OperationType::Query)),
                        _ => end_or(parse_operation_rest(&s, q, OperationType::Mutation)),
                    }
                }
            },
            Rule::document => match parse_document(&s) {
                Ok(_) => Ok(s.len()),
                Err(f) => Err(f),
            },
        };
        match outcome {
            Ok(e) => Ok(e),
            Err(f) => Err(locate(&s, f)),
        }
    }
}

} // verus!
