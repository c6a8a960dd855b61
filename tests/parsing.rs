use graphql_query::{
    parse, Directive, ErrorKind, Expected, Field, FragmentDefinition, FragmentInline,
    FragmentSpread, GraphQLParser, InputValue, Node, Operation, OperationType, Rule, Selection,
    Type,
};

fn leaf(name: &str) -> Selection {
    Selection::Field(Box::new(Field {
        alias: None,
        name: name.to_string(),
        arguments: vec![],
        directives: vec![],
        selection_set: vec![],
    }))
}

fn only_operation(doc: &[Node]) -> &Operation {
    assert_eq!(doc.len(), 1);
    match &doc[0] {
        Node::Operation(o) => o,
        other => panic!("expected an operation, got {:?}", other),
    }
}

fn only_field(sel: &[Selection]) -> &Field {
    assert_eq!(sel.len(), 1);
    match &sel[0] {
        Selection::Field(f) => f,
        other => panic!("expected a field, got {:?}", other),
    }
}

fn first_argument(text: &str) -> InputValue {
    let doc = parse(text).unwrap();
    let op = only_operation(&doc);
    let f = only_field(&op.selection_set);
    assert_eq!(f.arguments.len(), 1);
    f.arguments[0].1.clone_value()
}

trait CloneValue {
    fn clone_value(&self) -> InputValue;
}

impl CloneValue for InputValue {
    fn clone_value(&self) -> InputValue {
        match self {
            InputValue::Variable(s) => InputValue::Variable(s.clone()),
            InputValue::Int(i) => InputValue::Int(*i),
            InputValue::Float(s) => InputValue::Float(s.clone()),
            InputValue::String(s) => InputValue::String(s.clone()),
            InputValue::Boolean(b) => InputValue::Boolean(*b),
            InputValue::Null => InputValue::Null,
            InputValue::Enum(s) => InputValue::Enum(s.clone()),
            InputValue::List(v) => InputValue::List(v.iter().map(|x| x.clone_value()).collect()),
            InputValue::Object(v) => InputValue::Object(
                v.iter().map(|(k, x)| (k.clone(), x.clone_value())).collect(),
            ),
        }
    }
}

#[test]
fn can_parse_simple_doc() {
    let res = parse(r#"
  node(1) {
    id
    name
    birthdate {
      day,
      month,
      year
    },
    friends.first(1) {
      id
      name
    }
  }
"#);
    assert!(res.is_err());
}

#[test]
fn anonymous_query_with_one_leaf() {
    let doc = parse("{ id }").unwrap();
    let op = only_operation(&doc);
    assert_eq!(op.kind, OperationType::Query);
    assert_eq!(op.name, None);
    assert!(op.variable_definitions.is_empty());
    assert_eq!(op.selection_set, vec![leaf("id")]);
}

#[test]
fn field_with_argument_and_nested_set() {
    let doc = parse("{ user(id: 4) { name } }").unwrap();
    let op = only_operation(&doc);
    let user = only_field(&op.selection_set);
    assert_eq!(user.name, "user");
    assert_eq!(user.arguments, vec![("id".to_string(), InputValue::Int(4))]);
    assert_eq!(user.selection_set, vec![leaf("name")]);
}

#[test]
fn fragment_definition_scenario() {
    let doc = parse("fragment friendFields on User { id name }").unwrap();
    assert_eq!(
        doc,
        vec![Node::FragmentDefinition(FragmentDefinition {
            name: "friendFields".to_string(),
            type_condition: "User".to_string(),
            directive: None,
            selection_set: vec![leaf("id"), leaf("name")],
        })]
    );
}

#[test]
fn mutation_scenario() {
    let doc = parse("mutation likeStory { like(story: 123) { story { id } } }").unwrap();
    let op = only_operation(&doc);
    assert_eq!(op.kind, OperationType::Mutation);
    assert_eq!(op.name, Some("likeStory".to_string()));
    let like = only_field(&op.selection_set);
    assert_eq!(like.arguments, vec![("story".to_string(), InputValue::Int(123))]);
    let story = only_field(&like.selection_set);
    assert_eq!(story.name, "story");
    assert_eq!(story.selection_set, vec![leaf("id")]);
}

#[test]
fn missing_closing_brace_is_syntax_error_at_end() {
    let e = parse("{ id").unwrap_err();
    assert_eq!(e.kind, ErrorKind::Syntax(Expected::Char('}')));
    assert_eq!(e.offset, 4);
    assert_eq!((e.line, e.column), (1, 5));
}

#[test]
fn error_position_counts_lines() {
    let e = parse("{\n  id\n  ?\n}").unwrap_err();
    assert_eq!(e.kind, ErrorKind::Syntax(Expected::Selection));
    assert_eq!(e.offset, 9);
    assert_eq!((e.line, e.column), (3, 3));
}

#[test]
fn trailing_text_is_rejected() {
    let e = parse("{ id } }").unwrap_err();
    assert_eq!(e.kind, ErrorKind::Syntax(Expected::Definition));
    assert_eq!(e.offset, 7);
}

#[test]
fn empty_document_is_rejected() {
    let e = parse("  # only a comment\n").unwrap_err();
    assert_eq!(e.kind, ErrorKind::Syntax(Expected::Definition));
}

#[test]
fn empty_selection_set_is_rejected() {
    let e = parse("{ }").unwrap_err();
    assert_eq!(e.kind, ErrorKind::Syntax(Expected::Selection));
    assert_eq!(e.offset, 2);
}

#[test]
fn definitions_keep_source_order() {
    let doc = parse("query a { x } fragment f on T { y } { z } mutation m { w }").unwrap();
    assert_eq!(doc.len(), 4);
    match (&doc[0], &doc[1], &doc[2], &doc[3]) {
        (Node::Operation(a), Node::FragmentDefinition(f), Node::Operation(z), Node::Operation(m)) => {
            assert_eq!(a.name, Some("a".to_string()));
            assert_eq!(f.name, "f");
            assert_eq!(z.name, None);
            assert_eq!(z.selection_set, vec![leaf("z")]);
            assert_eq!(m.kind, OperationType::Mutation);
        }
        other => panic!("unexpected order {:?}", other),
    }
}

#[test]
fn nesting_and_order_are_kept() {
    let doc = parse("{ a { b { c } d } e }").unwrap();
    let op = only_operation(&doc);
    let a = Selection::Field(Box::new(Field {
        alias: None,
        name: "a".to_string(),
        arguments: vec![],
        directives: vec![],
        selection_set: vec![
            Selection::Field(Box::new(Field {
                alias: None,
                name: "b".to_string(),
                arguments: vec![],
                directives: vec![],
                selection_set: vec![leaf("c")],
            })),
            leaf("d"),
        ],
    }));
    assert_eq!(op.selection_set, vec![a, leaf("e")]);
}

#[test]
fn trailing_commas_give_the_same_tree() {
    let with = parse("{ f(a: 1, b: [1, 2,], c: {x: 1, y: 2,},) }").unwrap();
    let without = parse("{ f(a: 1, b: [1, 2], c: {x: 1, y: 2}) }").unwrap();
    assert_eq!(with, without);
    let f = only_field(&only_operation(&with).selection_set);
    assert_eq!(f.arguments.len(), 3);
}

#[test]
fn string_escapes_are_decoded() {
    let v = first_argument(r#"{ f(s: "escaped \n\r") }"#);
    assert_eq!(v, InputValue::String("escaped \n\r".to_string()));
    let v = first_argument(r#"{ f(s: "q\"b\\s\/\b\f\t") }"#);
    assert_eq!(v, InputValue::String("q\"b\\s/\u{8}\u{c}\t".to_string()));
}

#[test]
fn unicode_escapes_are_decoded() {
    let v = first_argument(r#"{ f(s: "\u0041\u00e9\uD83D\uDE00") }"#);
    assert_eq!(v, InputValue::String("A\u{e9}\u{1F600}".to_string()));
}

#[test]
fn invalid_escapes_are_rejected() {
    for text in [
        r#"{ f(s: "\x") }"#,
        r#"{ f(s: "\uD800") }"#,
        r#"{ f(s: "\uDC00") }"#,
        r#"{ f(s: "\u12") }"#,
        r#"{ f(s: "\uD800A") }"#,
    ] {
        let e = parse(text).unwrap_err();
        assert_eq!(e.kind, ErrorKind::InvalidEscape, "{}", text);
        assert_eq!(e.offset, 8, "{}", text);
    }
}

#[test]
fn unterminated_string_is_rejected() {
    let e = parse(r#"{ f(s: "abc) }"#).unwrap_err();
    assert_eq!(e.kind, ErrorKind::Syntax(Expected::Char('"')));
    assert_eq!(e.offset, 14);
}

#[test]
fn spread_and_inline_fragment_side_by_side() {
    let doc = parse("{ ...userData ... on User { id } ... @include(if: $x) { name } }").unwrap();
    let op = only_operation(&doc);
    assert_eq!(op.selection_set.len(), 3);
    assert_eq!(
        op.selection_set[0],
        Selection::FragmentSpread(Box::new(FragmentSpread {
            name: "userData".to_string(),
            directives: vec![],
        }))
    );
    assert_eq!(
        op.selection_set[1],
        Selection::FragmentInline(Box::new(FragmentInline {
            type_condition: Some("User".to_string()),
            directives: vec![],
            selection_set: vec![leaf("id")],
        }))
    );
    assert_eq!(
        op.selection_set[2],
        Selection::FragmentInline(Box::new(FragmentInline {
            type_condition: None,
            directives: vec![Directive {
                name: "include".to_string(),
                arguments: vec![("if".to_string(), InputValue::Variable("x".to_string()))],
            }],
            selection_set: vec![leaf("name")],
        }))
    );
}

#[test]
fn on_without_type_name_is_rejected() {
    let e = parse("{ ...on { id } }").unwrap_err();
    assert_eq!(e.kind, ErrorKind::Syntax(Expected::Name));
    assert_eq!(e.offset, 8);
    assert!(GraphQLParser::parse_str(Rule::fragment_spread, "...on").is_err());
}

#[test]
fn duplicate_arguments_are_rejected() {
    let e = parse("{ field(a: 1, a: 2) }").unwrap_err();
    assert_eq!(e.kind, ErrorKind::DuplicateKey);
    assert_eq!(e.offset, 14);
    let e = parse("{ field @d(a: 1, a: 2) }").unwrap_err();
    assert_eq!(e.kind, ErrorKind::DuplicateKey);
    let e = parse("{ field(o: {a: 1, a: 2}) }").unwrap_err();
    assert_eq!(e.kind, ErrorKind::DuplicateKey);
}

#[test]
fn integer_range_is_checked() {
    assert_eq!(first_argument("{ f(n: 9223372036854775807) }"), InputValue::Int(i64::MAX));
    assert_eq!(first_argument("{ f(n: -9223372036854775808) }"), InputValue::Int(i64::MIN));
    assert_eq!(first_argument("{ f(n: -0) }"), InputValue::Int(0));
    let e = parse("{ f(n: 9223372036854775808) }").unwrap_err();
    assert_eq!(e.kind, ErrorKind::Range);
    assert_eq!(e.offset, 7);
    let e = parse("{ f(n: -9223372036854775809) }").unwrap_err();
    assert_eq!(e.kind, ErrorKind::Range);
}

#[test]
fn floats_keep_their_numeral() {
    assert_eq!(first_argument("{ f(x: -1.5e3) }"), InputValue::Float("-1.5e3".to_string()));
    assert_eq!(first_argument("{ f(x: 12.43) }"), InputValue::Float("12.43".to_string()));
    assert_eq!(first_argument("{ f(x: 1E+2) }"), InputValue::Float("1E+2".to_string()));
    let e = parse("{ f(x: 1.) }").unwrap_err();
    assert_eq!(e.kind, ErrorKind::Syntax(Expected::Digit));
    assert_eq!(e.offset, 9);
}

#[test]
fn literal_names_and_enums() {
    assert_eq!(first_argument("{ f(x: true) }"), InputValue::Boolean(true));
    assert_eq!(first_argument("{ f(x: false) }"), InputValue::Boolean(false));
    assert_eq!(first_argument("{ f(x: null) }"), InputValue::Null);
    assert_eq!(first_argument("{ f(x: nullable) }"), InputValue::Enum("nullable".to_string()));
    assert_eq!(first_argument("{ f(x: $v) }"), InputValue::Variable("v".to_string()));
}

#[test]
fn lists_and_objects() {
    assert_eq!(
        first_argument("{ f(x: [1 \"a\" [] {}]) }"),
        InputValue::List(vec![
            InputValue::Int(1),
            InputValue::String("a".to_string()),
            InputValue::List(vec![]),
            InputValue::Object(vec![]),
        ])
    );
    assert_eq!(
        first_argument("{ f(x: { lon: 12, lat: -53 }) }"),
        InputValue::Object(vec![
            ("lon".to_string(), InputValue::Int(12)),
            ("lat".to_string(), InputValue::Int(-53)),
        ])
    );
}

#[test]
fn deep_nesting_is_bounded() {
    let deep = format!("{{ f(x: {}{}) }}", "[".repeat(100), "]".repeat(100));
    assert_eq!(parse(&deep).unwrap_err().kind, ErrorKind::TooDeep);
    let fine = format!("{{ f(x: {}{}) }}", "[".repeat(10), "]".repeat(10));
    assert!(parse(&fine).is_ok());
    let mut nested = String::from("{ a ");
    for _ in 0..100 {
        nested.push_str("{ a ");
    }
    for _ in 0..101 {
        nested.push('}');
    }
    assert_eq!(parse(&nested).unwrap_err().kind, ErrorKind::TooDeep);
}

#[test]
fn variable_definitions_and_types() {
    let doc = parse("query q($a: [Int!]!, $b: String = \"x\", $c: [T]) @live { f }").unwrap();
    let op = only_operation(&doc);
    assert_eq!(op.variable_definitions.len(), 3);
    assert_eq!(op.variable_definitions[0].name, "a");
    assert_eq!(
        op.variable_definitions[0].var_type,
        Type::NonNullList(Box::new(Type::NonNullNamed("Int".to_string())))
    );
    assert_eq!(op.variable_definitions[0].default_value, None);
    assert_eq!(op.variable_definitions[1].var_type, Type::Named("String".to_string()));
    assert_eq!(
        op.variable_definitions[1].default_value,
        Some(InputValue::String("x".to_string()))
    );
    assert_eq!(
        op.variable_definitions[2].var_type,
        Type::List(Box::new(Type::Named("T".to_string())))
    );
    assert_eq!(op.directives.len(), 1);
    assert_eq!(op.directives[0].name, "live");
}

#[test]
fn alias_directives_and_comments() {
    let doc = parse("# head\n{ pic: profilePic(size: 64) @include(if: $big) # tail\n }").unwrap();
    let f = only_field(&only_operation(&doc).selection_set);
    assert_eq!(f.alias, Some("pic".to_string()));
    assert_eq!(f.name, "profilePic");
    assert_eq!(f.arguments, vec![("size".to_string(), InputValue::Int(64))]);
    assert_eq!(f.directives.len(), 1);
    assert_eq!(f.directives[0].name, "include");
}

#[test]
fn fragment_definition_with_directive() {
    let doc = parse("fragment f on T @d(x: 1) { id }").unwrap();
    match &doc[0] {
        Node::FragmentDefinition(f) => {
            assert_eq!(
                f.directive,
                Some(Directive {
                    name: "d".to_string(),
                    arguments: vec![("x".to_string(), InputValue::Int(1))],
                })
            );
        }
        other => panic!("expected a fragment, got {:?}", other),
    }
    let e = parse("fragment on on T { id }").unwrap_err();
    assert_eq!(e.kind, ErrorKind::Syntax(Expected::Name));
    let e = parse("fragment f of T { id }").unwrap_err();
    assert_eq!(e.kind, ErrorKind::Syntax(Expected::Keyword));
}

#[test]
fn rule_recognizer_reports_match_end() {
    assert_eq!(GraphQLParser::parse_str(Rule::name, "abc def"), Ok(3));
    assert_eq!(GraphQLParser::parse_str(Rule::integer, "12 "), Ok(3));
    assert!(GraphQLParser::parse_str(Rule::integer, "1.5").is_err());
    assert!(GraphQLParser::parse_str(Rule::float, "15").is_err());
    assert!(GraphQLParser::parse_str(Rule::args, "()").is_err());
    assert_eq!(GraphQLParser::parse_str(Rule::document, "{ a }"), Ok(5));
    let e = GraphQLParser::parse_str(Rule::boolean, "maybe").unwrap_err();
    assert_eq!(e.kind, ErrorKind::Syntax(Expected::Value));
}

#[test]
fn float_beyond_f64_range_is_rejected() {
    let e = parse("{ f(x: -1.123e4567) }").unwrap_err();
    assert_eq!(e.kind, ErrorKind::Range);
    assert_eq!(e.offset, 7);
    assert_eq!(parse("{ f(x: 1.7976931348623159e308) }").unwrap_err().kind, ErrorKind::Range);
    assert_eq!(parse("{ f(x: 1e99999999999999999999999) }").unwrap_err().kind, ErrorKind::Range);
    assert_eq!(parse("{ f(x: 179769313486231580793728971405303415079934132710037826936173778980444968292764750946649017977587207096330286416692887910946555547851940402630657488671505820681908902000708383676273854845817711531764475730270069855571366959622842914819860834936475292719074168444365510704342711559699508093042880177904174497792.0) }").unwrap_err().kind, ErrorKind::Range);
    assert_eq!(parse("{ f(x: 0.179769313486231580793728971405303415079934132710037826936173778980444968292764750946649017977587207096330286416692887910946555547851940402630657488671505820681908902000708383676273854845817711531764475730270069855571366959622842914819860834936475292719074168444365510704342711559699508093042880177904174497792e309) }").unwrap_err().kind, ErrorKind::Range);
}

#[test]
fn float_within_f64_range_is_kept() {
    assert_eq!(
        first_argument("{ f(x: 1.7976931348623157e308) }"),
        InputValue::Float("1.7976931348623157e308".to_string())
    );
    assert_eq!(
        first_argument("{ f(x: 1.7976931348623158e308) }"),
        InputValue::Float("1.7976931348623158e308".to_string())
    );
    assert_eq!(
        first_argument("{ f(x: 179769313486231580793728971405303415079934132710037826936173778980444968292764750946649017977587207096330286416692887910946555547851940402630657488671505820681908902000708383676273854845817711531764475730270069855571366959622842914819860834936475292719074168444365510704342711559699508093042880177904174497791.9) }"),
        InputValue::Float("179769313486231580793728971405303415079934132710037826936173778980444968292764750946649017977587207096330286416692887910946555547851940402630657488671505820681908902000708383676273854845817711531764475730270069855571366959622842914819860834936475292719074168444365510704342711559699508093042880177904174497791.9".to_string())
    );
    assert_eq!(first_argument("{ f(x: 1e-99999999999999999999) }"), InputValue::Float("1e-99999999999999999999".to_string()));
    assert_eq!(first_argument("{ f(x: 0e99999999999999999999) }"), InputValue::Float("0e99999999999999999999".to_string()));
    assert_eq!(first_argument("{ f(x: 0.0001e312) }"), InputValue::Float("0.0001e312".to_string()));
}

#[test]
fn on_is_never_a_spread_name() {
    let e = parse("{ a ...on }").unwrap_err();
    assert_eq!(e.kind, ErrorKind::Syntax(Expected::Name));
    assert_eq!(e.offset, 10);
}

#[test]
fn argument_names_are_unique_per_owner() {
    let doc = parse("{ f(a: 1) { g(a: 2) } }").unwrap();
    let f = only_field(&only_operation(&doc).selection_set);
    assert_eq!(f.arguments, vec![("a".to_string(), InputValue::Int(1))]);
    let e = parse("{ f @include(if: true, if: false) }").unwrap_err();
    assert_eq!(e.kind, ErrorKind::DuplicateKey);
    let doc = parse("{ f(b: 1, a: 2) }").unwrap();
    let f = only_field(&only_operation(&doc).selection_set);
    assert_eq!(
        f.arguments,
        vec![("b".to_string(), InputValue::Int(1)), ("a".to_string(), InputValue::Int(2))]
    );
}
