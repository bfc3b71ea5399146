//! The parser: the fast path, the multi-line scanner, normalization, and
//! the failure policy.

use dpm::{format_sexpr, parse_string, parse_string_normalized, Ast};

#[test]
fn single_expression_fast_path() {
    let nodes = parse_string("(sum 1 2 3)").unwrap();
    assert_eq!(nodes.len(), 1);
    assert_eq!(
        nodes[0],
        Ast::List(vec![
            Ast::Symbol("sum".to_string()),
            Ast::Int(1),
            Ast::Int(2),
            Ast::Int(3),
        ])
    );
}

#[test]
fn multiline_balanced_input_equals_single_line() {
    let multiline = "(sum 1\n     2\n     3)";
    let single = "(sum 1 2 3)";
    let a = parse_string_normalized(multiline).unwrap();
    let b = parse_string(single).unwrap();
    assert_eq!(a.len(), 1);
    assert_eq!(a, b);
}

#[test]
fn test_multiline_parsing_issue() {
    let multiline_input = "(docker-compose-args \n        \"compose\" \n        \"-f\" \n        \"docker-compose.core.yml\" \n        \"-f\" \n        \"docker-compose.yml\" \n        \"run\" \n        \"--rm\" \n        \"--no-deps\" \n        \"-T\")";
    let result = parse_string_normalized(multiline_input);
    assert!(result.is_ok(), "the normalized path should accept multi-line input");
    assert_eq!(result.unwrap().len(), 1);
}

#[test]
fn unbalanced_input_fails_with_message() {
    let result = parse_string("(sum 1 2 (");
    assert!(result.is_err());
    let msg = result.unwrap_err();
    assert!(!msg.is_empty());
    assert!(msg.contains("Unbalanced parentheses"));
}

#[test]
fn multiple_expressions_scan() {
    let nodes = parse_string("(sum 1) (sum 2)").unwrap();
    assert_eq!(nodes.len(), 2);
}

#[test]
fn empty_input_yields_no_nodes() {
    assert_eq!(parse_string("   \n  ").unwrap().len(), 0);
    assert_eq!(parse_string("").unwrap().len(), 0);
}

#[test]
fn comment_only_input_is_empty_through_normalization() {
    assert_eq!(parse_string_normalized("; nothing here\n; more nothing").unwrap().len(), 0);
}

#[test]
fn comments_are_cut_on_the_normalized_path() {
    let nodes = parse_string_normalized("(sum 1 ; one\n 2) ; done").unwrap();
    assert_eq!(nodes.len(), 1);
    assert_eq!(
        nodes[0],
        Ast::List(vec![Ast::Symbol("sum".to_string()), Ast::Int(1), Ast::Int(2)])
    );
}

#[test]
fn semicolon_inside_string_is_kept() {
    let nodes = parse_string_normalized("(print \"a;b\")").unwrap();
    assert_eq!(
        nodes[0],
        Ast::List(vec![Ast::Symbol("print".to_string()), Ast::Str("a;b".to_string())])
    );
}

#[test]
fn format_sexpr_joins_trimmed_lines() {
    assert_eq!(format_sexpr("(sum 1\n   2\n   3)"), "(sum 1 2 3)");
    assert_eq!(format_sexpr("  (a) ; note\n\n  (b)  "), "(a) (b)");
    assert_eq!(format_sexpr(""), "");
}

#[test]
fn string_escapes_decode() {
    let nodes = parse_string("\"a\\n\\t\\\\\\\"z\"").unwrap();
    assert_eq!(nodes[0], Ast::Str("a\n\t\\\"z".to_string()));
}

#[test]
fn unterminated_string_fails() {
    let result = parse_string("(print \"abc)");
    assert!(result.is_err());
}

#[test]
fn number_literals() {
    assert_eq!(parse_string("42").unwrap()[0], Ast::Int(42));
    assert_eq!(parse_string("-17").unwrap()[0], Ast::Int(-17));
    assert_eq!(parse_string("+8").unwrap()[0], Ast::Int(8));
    // The fraction part is discarded: a documented truncation toward zero.
    assert_eq!(parse_string("3.9").unwrap()[0], Ast::Int(3));
    assert_eq!(parse_string("-3.9").unwrap()[0], Ast::Int(-3));
    assert_eq!(
        parse_string("9223372036854775807").unwrap()[0],
        Ast::Int(i64::MAX)
    );
    assert_eq!(
        parse_string("-9223372036854775808").unwrap()[0],
        Ast::Int(i64::MIN)
    );
    assert!(parse_string("9223372036854775808").is_err());
}

#[test]
fn hash_literals_and_brackets() {
    assert_eq!(parse_string("#t").unwrap()[0], Ast::Bool(true));
    assert_eq!(parse_string("#f").unwrap()[0], Ast::Bool(false));
    assert_eq!(parse_string("#nil").unwrap()[0], Ast::Nil);
    assert_eq!(parse_string("()").unwrap()[0], Ast::Nil);
    assert_eq!(
        parse_string("[a b]").unwrap()[0],
        Ast::List(vec![Ast::Symbol("a".to_string()), Ast::Symbol("b".to_string())])
    );
    assert!(parse_string("(a]").is_err());
}

#[test]
fn dotted_tails_flatten() {
    assert_eq!(
        parse_string("(a . b)").unwrap()[0],
        Ast::List(vec![Ast::Symbol("a".to_string()), Ast::Symbol("b".to_string())])
    );
}

#[test]
fn quotation_shorthand() {
    assert_eq!(
        parse_string("'x").unwrap()[0],
        Ast::List(vec![Ast::Symbol("quote".to_string()), Ast::Symbol("x".to_string())])
    );
}

#[test]
fn symbols_keep_their_text() {
    assert_eq!(parse_string("a-b/c?").unwrap()[0], Ast::Symbol("a-b/c?".to_string()));
    assert_eq!(parse_string("-").unwrap()[0], Ast::Symbol("-".to_string()));
}
