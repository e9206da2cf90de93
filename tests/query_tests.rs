use protoncli::query::{Operator, QueryError, QueryExpr, QueryParser};

#[test]
fn test_simple_field() {
    let result = QueryParser::parse("from:test@example.com").unwrap();
    assert!(matches!(result, QueryExpr::Field { .. }));
}

#[test]
fn test_and_operator() {
    let result = QueryParser::parse("from:test@example.com AND subject:hello").unwrap();
    assert!(matches!(result, QueryExpr::And(_, _)));
}

#[test]
fn test_or_operator() {
    let result = QueryParser::parse("from:test@example.com OR from:other@example.com").unwrap();
    assert!(matches!(result, QueryExpr::Or(_, _)));
}

#[test]
fn test_not_operator() {
    let result = QueryParser::parse("NOT from:spam@example.com").unwrap();
    assert!(matches!(result, QueryExpr::Not(_)));
}

#[test]
fn test_comparison_operators() {
    let result = QueryParser::parse("date:>2024-01-01").unwrap();
    if let QueryExpr::Field { operator, .. } = result {
        assert_eq!(operator, Operator::GreaterThan);
    } else {
        panic!("Expected Field expression");
    }
}

#[test]
fn test_less_than_operator() {
    let result = QueryParser::parse("date:<2024-01-01").unwrap();
    if let QueryExpr::Field { operator, .. } = result {
        assert_eq!(operator, Operator::LessThan);
    } else {
        panic!("Expected Field expression");
    }
}

#[test]
fn test_quoted_string_in_value() {
    let result = QueryParser::parse("subject:\"hello world\"").unwrap();
    if let QueryExpr::Field { value, .. } = result {
        assert_eq!(value, "hello world");
    } else {
        panic!("Expected Field expression");
    }
}

#[test]
fn test_implicit_and_multiple_tokens() {
    let result = QueryParser::parse("from:alice@example.com subject:hello").unwrap();
    assert!(matches!(result, QueryExpr::And(_, _)));
}

#[test]
fn test_exclamation_not() {
    let result = QueryParser::parse("! from:spam@example.com").unwrap();
    assert!(matches!(result, QueryExpr::Not(_)));
}

#[test]
fn test_empty_query_error() {
    let result = QueryParser::parse("");
    assert!(result.is_err());
}

#[test]
fn test_empty_value_error() {
    let result = QueryParser::parse("from:");
    assert!(result.is_err());
    let err = result.unwrap_err().message();
    assert!(err.contains("Empty value"));
}

#[test]
fn test_empty_value_after_operator_error() {
    let result = QueryParser::parse("date:>");
    assert!(result.is_err());
    let err = result.unwrap_err().message();
    assert!(err.contains("Empty value after operator"));
}

#[test]
fn test_invalid_syntax_no_colon() {
    let result = QueryParser::parse("justtext");
    assert!(result.is_err());
    let err = result.unwrap_err().message();
    assert!(err.contains("Invalid query syntax"));
}

#[test]
fn test_complex_or_and_expression() {
    let result = QueryParser::parse("from:a@b.com AND subject:test OR from:c@d.com").unwrap();
    assert!(matches!(result, QueryExpr::Or(_, _)));
}

#[test]
fn test_case_insensitive_operators() {
    let result1 = QueryParser::parse("from:a AND to:b").unwrap();
    let result2 = QueryParser::parse("from:a and to:b").unwrap();
    assert!(matches!(result1, QueryExpr::And(_, _)));
    assert!(matches!(result2, QueryExpr::And(_, _)));
}

fn field_parts(e: &QueryExpr) -> (String, Operator, String) {
    match e {
        QueryExpr::Field { name, operator, value } => (name.clone(), *operator, value.clone()),
        _ => panic!("Expected Field expression"),
    }
}

#[test]
fn or_wins_the_top_level_split() {
    let result = QueryParser::parse("from:a@b.com AND subject:test OR from:c@d.com").unwrap();
    match result {
        QueryExpr::Or(left, right) => {
            match *left {
                QueryExpr::And(l, r) => {
                    assert_eq!(field_parts(&l), ("from".to_string(), Operator::Equals, "a@b.com".to_string()));
                    assert_eq!(field_parts(&r), ("subject".to_string(), Operator::Equals, "test".to_string()));
                }
                _ => panic!("Expected And on the left"),
            }
            assert_eq!(field_parts(&right), ("from".to_string(), Operator::Equals, "c@d.com".to_string()));
        }
        _ => panic!("Expected Or at the top"),
    }
}

#[test]
fn empty_value_errors_name_the_field_and_token() {
    match QueryParser::parse("field:") {
        Err(QueryError::EmptyValue(f)) => assert_eq!(f, "field"),
        other => panic!("unexpected {:?}", other),
    }
    match QueryParser::parse("field:>") {
        Err(QueryError::EmptyValueAfterOperator(t)) => assert_eq!(t, "field:>"),
        other => panic!("unexpected {:?}", other),
    }
    assert!(matches!(QueryParser::parse(""), Err(QueryError::EmptyQuery)));
    assert!(matches!(QueryParser::parse("   "), Err(QueryError::EmptyQuery)));
    match QueryParser::parse("bareword") {
        Err(QueryError::InvalidSyntax(t)) => assert_eq!(t, "bareword"),
        other => panic!("unexpected {:?}", other),
    }
}

#[test]
fn value_keeps_text_after_first_colon() {
    let e = QueryParser::parse("subject:re:hello").unwrap();
    assert_eq!(field_parts(&e), ("subject".to_string(), Operator::Equals, "re:hello".to_string()));
}

#[test]
fn leading_not_wraps_the_rest_and_bang_alone_fails() {
    match QueryParser::parse("NOT from:x subject:y").unwrap() {
        QueryExpr::Not(inner) => assert!(matches!(*inner, QueryExpr::And(_, _))),
        _ => panic!("Expected Not"),
    }
    assert!(matches!(QueryParser::parse("!"), Err(QueryError::EmptyQuery)));
    assert!(matches!(QueryParser::parse("from:a OR"), Err(QueryError::EmptyQuery)));
}

#[test]
fn tokenize_keeps_quoted_spaces() {
    let t = QueryParser::tokenize("a:\"b c\"  d:e");
    assert_eq!(t, vec!["a:b c".to_string(), "d:e".to_string()]);
}
