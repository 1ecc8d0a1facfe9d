use sin::directive::{parse_directive, SchemaDirective, Token};
use sin::errors::BuildError;
use sin::metadata::emit_table_metadata;

fn ident(s: &str) -> Token {
    Token::Ident(s.to_string())
}

fn lit(s: &str) -> Token {
    Token::Literal(s.to_string())
}

/// `table = "t1", keyspace = "ks1", partition_key = [a, b]`
fn directive_one() -> Vec<Token> {
    vec![
        ident("table"),
        Token::Equals,
        lit("t1"),
        Token::Comma,
        ident("keyspace"),
        Token::Equals,
        lit("ks1"),
        Token::Comma,
        ident("partition_key"),
        Token::Equals,
        Token::OpenBracket,
        ident("a"),
        Token::Comma,
        ident("b"),
        Token::CloseBracket,
    ]
}

/// `keyspace = "ks1", partition_key = [a, b], table = "t1"`
fn directive_one_reordered() -> Vec<Token> {
    vec![
        ident("keyspace"),
        Token::Equals,
        lit("ks1"),
        Token::Comma,
        ident("partition_key"),
        Token::Equals,
        Token::OpenBracket,
        ident("a"),
        Token::Comma,
        ident("b"),
        Token::CloseBracket,
        Token::Comma,
        ident("table"),
        Token::Equals,
        lit("t1"),
    ]
}

#[test]
fn parses_all_four_keys() {
    let d = parse_directive(&directive_one()).unwrap();
    assert!(d.table_name == Some("t1".to_string()));
    assert!(d.keyspace == Some("ks1".to_string()));
    assert!(d.partition_key == Some(vec!["a".to_string(), "b".to_string()]));
    assert!(d.clustering_key == None);
}

#[test]
fn order_independence() {
    let d1 = parse_directive(&directive_one()).unwrap();
    let d2 = parse_directive(&directive_one_reordered()).unwrap();
    assert!(d1 == d2);
}

#[test]
fn last_write_wins() {
    let toks = vec![
        ident("table"),
        Token::Equals,
        lit("t1"),
        Token::Comma,
        ident("table"),
        Token::Equals,
        lit("t2"),
    ];
    let d = parse_directive(&toks).unwrap();
    assert!(d.table_name == Some("t2".to_string()));
}

#[test]
fn unknown_key_tolerance() {
    let with_unknown = vec![
        ident("table"),
        Token::Equals,
        lit("t1"),
        Token::Comma,
        ident("keyspace"),
        Token::Equals,
        lit("ks1"),
        Token::Comma,
        ident("unknown_key"),
        Token::Equals,
        lit("5"),
    ];
    let without = vec![
        ident("table"),
        Token::Equals,
        lit("t1"),
        Token::Comma,
        ident("keyspace"),
        Token::Equals,
        lit("ks1"),
    ];
    let d1 = parse_directive(&with_unknown).unwrap();
    let d2 = parse_directive(&without).unwrap();
    assert!(d1 == d2);
}

#[test]
fn unknown_key_with_list_value() {
    let toks = vec![
        ident("extra"),
        Token::Equals,
        Token::OpenBracket,
        ident("x"),
        Token::CloseBracket,
        Token::Comma,
        ident("table"),
        Token::Equals,
        lit("t"),
    ];
    let d = parse_directive(&toks).unwrap();
    assert!(d.table_name == Some("t".to_string()));
    assert!(d.partition_key == None);
}

#[test]
fn trailing_comma_accepted() {
    let toks = vec![ident("table"), Token::Equals, lit("t1"), Token::Comma];
    let d = parse_directive(&toks).unwrap();
    assert!(d.table_name == Some("t1".to_string()));
}

#[test]
fn trailing_comma_in_list_accepted() {
    let toks = vec![
        ident("clustering_key"),
        Token::Equals,
        Token::OpenBracket,
        ident("a"),
        Token::Comma,
        Token::CloseBracket,
    ];
    let d = parse_directive(&toks).unwrap();
    assert!(d.clustering_key == Some(vec!["a".to_string()]));
}

#[test]
fn empty_list_accepted() {
    let toks = vec![
        ident("partition_key"),
        Token::Equals,
        Token::OpenBracket,
        Token::CloseBracket,
    ];
    let d = parse_directive(&toks).unwrap();
    assert!(d.partition_key == Some(Vec::new()));
}

#[test]
fn empty_directive_parses() {
    let d = parse_directive(&Vec::new()).unwrap();
    let empty = SchemaDirective {
        table_name: None,
        keyspace: None,
        partition_key: None,
        clustering_key: None,
    };
    assert!(d == empty);
}

#[test]
fn key_not_identifier_rejected() {
    let toks = vec![lit("table"), Token::Equals, lit("t1")];
    let r = parse_directive(&toks);
    assert!(r == Err(BuildError::MalformedDirective));
}

#[test]
fn missing_equals_rejected() {
    let toks = vec![ident("table"), lit("t1")];
    let r = parse_directive(&toks);
    assert!(r == Err(BuildError::MalformedDirective));
}

#[test]
fn partition_key_without_list_rejected() {
    let toks = vec![ident("partition_key"), Token::Equals, lit("5")];
    let r = parse_directive(&toks);
    assert!(r == Err(BuildError::MalformedDirective));
}

#[test]
fn table_with_list_rejected() {
    let toks = vec![
        ident("table"),
        Token::Equals,
        Token::OpenBracket,
        ident("a"),
        Token::CloseBracket,
    ];
    let r = parse_directive(&toks);
    assert!(r == Err(BuildError::MalformedDirective));
}

#[test]
fn missing_comma_between_pairs_rejected() {
    let toks = vec![
        ident("table"),
        Token::Equals,
        lit("t1"),
        ident("keyspace"),
        Token::Equals,
        lit("ks1"),
    ];
    let r = parse_directive(&toks);
    assert!(r == Err(BuildError::MalformedDirective));
}

#[test]
fn double_comma_rejected() {
    let toks = vec![
        ident("table"),
        Token::Equals,
        lit("t1"),
        Token::Comma,
        Token::Comma,
    ];
    let r = parse_directive(&toks);
    assert!(r == Err(BuildError::MalformedDirective));
}

#[test]
fn unterminated_list_rejected() {
    let toks = vec![
        ident("partition_key"),
        Token::Equals,
        Token::OpenBracket,
        ident("a"),
    ];
    let r = parse_directive(&toks);
    assert!(r == Err(BuildError::MalformedDirective));
}

#[test]
fn metadata_emitted_when_both_present() {
    let d = parse_directive(&directive_one()).unwrap();
    let m = emit_table_metadata(&d).unwrap();
    assert!(m.table_name().as_str() == "t1");
    assert!(m.keyspace().as_str() == "ks1");
}

#[test]
fn metadata_missing_keyspace_rejected() {
    let toks = vec![ident("table"), Token::Equals, lit("t1")];
    let d = parse_directive(&toks).unwrap();
    let r = emit_table_metadata(&d);
    assert!(r == Err(BuildError::MissingTableMetadata));
}

#[test]
fn metadata_missing_table_rejected() {
    let toks = vec![ident("keyspace"), Token::Equals, lit("ks1")];
    let d = parse_directive(&toks).unwrap();
    let r = emit_table_metadata(&d);
    assert!(r == Err(BuildError::MissingTableMetadata));
}
