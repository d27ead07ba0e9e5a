use xmlsql::generator::generate_sql;
use xmlsql::sql::{alias_text, escape_sql};
use xmlsql::{css_to_sql, tokenize, AttributeOperator, Combinator, SelectorError, Token};

fn parse_error(msg: &str) -> SelectorError {
    SelectorError::ParseError(msg.to_string())
}

#[test]
fn test_tokenize_simple_tag() {
    let tokens = tokenize("div").unwrap();
    assert_eq!(tokens, vec![Token::TagName("div".to_string())]);
}

#[test]
fn test_tokenize_class() {
    let tokens = tokenize(".container").unwrap();
    assert_eq!(tokens, vec![Token::Class("container".to_string())]);
}

#[test]
fn test_tokenize_id() {
    let tokens = tokenize("#main").unwrap();
    assert_eq!(tokens, vec![Token::Id("main".to_string())]);
}

#[test]
fn test_tokenize_attribute_exists() {
    let tokens = tokenize("[data-id]").unwrap();
    assert_eq!(
        tokens,
        vec![Token::Attribute {
            name: "data-id".to_string(),
            value: None,
            operator: AttributeOperator::Exists,
        }]
    );
}

#[test]
fn test_tokenize_attribute_equals() {
    let tokens = tokenize("[href='#']").unwrap();
    assert_eq!(
        tokens,
        vec![Token::Attribute {
            name: "href".to_string(),
            value: Some("#".to_string()),
            operator: AttributeOperator::Equals,
        }]
    );
}

#[test]
fn test_tokenize_complex() {
    let tokens = tokenize("div.container > p#intro").unwrap();
    assert_eq!(tokens.len(), 5);
    assert!(matches!(tokens[0], Token::TagName(_)));
    assert!(matches!(tokens[1], Token::Class(_)));
    assert!(matches!(tokens[2], Token::Combinator(Combinator::Child)));
}

#[test]
fn test_css_to_sql_simple_tag() {
    let sql = css_to_sql("div").unwrap();
    assert!(sql.contains("tag_name = 'div'"));
}

#[test]
fn test_css_to_sql_class() {
    let sql = css_to_sql(".container").unwrap();
    assert!(sql.contains("name = 'class'"));
    assert!(sql.contains("value"));
}

#[test]
fn complex_selector_tokens_in_order() {
    let tokens = tokenize("div.container > p#intro").unwrap();
    assert_eq!(
        tokens,
        vec![
            Token::TagName("div".to_string()),
            Token::Class("container".to_string()),
            Token::Combinator(Combinator::Child),
            Token::TagName("p".to_string()),
            Token::Id("intro".to_string()),
        ]
    );
}

#[test]
fn letters_give_exact_tag_query() {
    assert_eq!(
        css_to_sql("section").unwrap(),
        "SELECT DISTINCT n1.*\nFROM nodes n1\nWHERE n1.tag_name = 'section'"
    );
    assert_eq!(
        css_to_sql("  Ab  ").unwrap(),
        "SELECT DISTINCT n1.*\nFROM nodes n1\nWHERE n1.tag_name = 'Ab'"
    );
}

#[test]
fn class_query_is_exact() {
    assert_eq!(
        css_to_sql(".container").unwrap(),
        "SELECT DISTINCT n1.*\nFROM nodes n1\nJOIN attributes a2 ON a2.node_id = n1.id\n\
WHERE a2.name = 'class' AND (a2.value = 'container' OR a2.value LIKE '% container' \
OR a2.value LIKE 'container %' OR a2.value LIKE '% container %')"
    );
}

#[test]
fn id_query_names_id() {
    assert_eq!(
        css_to_sql("#main").unwrap(),
        "SELECT DISTINCT n1.*\nFROM nodes n1\nJOIN attributes a2 ON a2.node_id = n1.id\n\
WHERE a2.name = 'id' AND a2.value = 'main'"
    );
}

#[test]
fn attribute_exists_has_no_value_condition() {
    let sql = css_to_sql("[data-id]").unwrap();
    assert_eq!(
        sql,
        "SELECT DISTINCT n1.*\nFROM nodes n1\nJOIN attributes a2 ON a2.node_id = n1.id\n\
WHERE a2.name = 'data-id'"
    );
    assert!(!sql.contains(".value"));
}

#[test]
fn attribute_operators_give_their_conditions() {
    let head = "SELECT DISTINCT n1.*\nFROM nodes n1\nJOIN attributes a2 ON a2.node_id = n1.id\n\
WHERE a2.name = 'href' AND ";
    assert_eq!(css_to_sql("[href='#']").unwrap(), format!("{}a2.value = '#'", head));
    assert_eq!(css_to_sql("[href*=x]").unwrap(), format!("{}a2.value LIKE '%x%'", head));
    assert_eq!(css_to_sql("[href^=\"ab\"]").unwrap(), format!("{}a2.value LIKE 'ab%'", head));
    assert_eq!(css_to_sql("[href$= x]").unwrap(), format!("{}a2.value LIKE '%x'", head));
    assert_eq!(
        css_to_sql("[href~=w]").unwrap(),
        format!(
            "{}(a2.value = 'w' OR a2.value LIKE '% w' OR a2.value LIKE 'w %' OR a2.value LIKE '% w %')",
            head
        )
    );
    assert_eq!(css_to_sql("[href==v]"), Err(parse_error("Invalid attribute operator")));
}

#[test]
fn operators_tokenize() {
    let ops = [
        ("[a*=v]", AttributeOperator::Contains),
        ("[a^=v]", AttributeOperator::StartsWith),
        ("[a$=v]", AttributeOperator::EndsWith),
        ("[a~=v]", AttributeOperator::WordMatch),
        ("[a=v]", AttributeOperator::Equals),
    ];
    for (text, op) in ops {
        assert_eq!(
            tokenize(text).unwrap(),
            vec![Token::Attribute { name: "a".to_string(), value: Some("v".to_string()), operator: op }]
        );
    }
}

#[test]
fn descendant_uses_recursive_closure() {
    let sql = css_to_sql("div p").unwrap();
    assert!(sql.starts_with("SELECT DISTINCT n2.*\nFROM nodes n1\nJOIN nodes n2 ON n2.id IN ("));
    assert!(sql.contains("WITH RECURSIVE descendants AS ("));
    assert!(sql.contains("SELECT id FROM nodes WHERE parent_id = n1.id"));
    assert!(sql.ends_with("\nWHERE n1.tag_name = 'div' AND n2.tag_name = 'p'"));
}

#[test]
fn child_uses_parent_join() {
    let sql = css_to_sql("div > p").unwrap();
    assert_eq!(
        sql,
        "SELECT DISTINCT n2.*\nFROM nodes n1\nJOIN nodes n2 ON n2.parent_id = n1.id\n\
WHERE n1.tag_name = 'div' AND n2.tag_name = 'p'"
    );
    assert!(!sql.contains("RECURSIVE"));
}

#[test]
fn whitespace_runs_give_one_descendant() {
    let tokens = tokenize("a \t\n b").unwrap();
    assert_eq!(
        tokens,
        vec![
            Token::TagName("a".to_string()),
            Token::Combinator(Combinator::Descendant),
            Token::TagName("b".to_string()),
        ]
    );
    let tokens = tokenize("a\r\u{a0}b").unwrap();
    assert_eq!(tokens[1], Token::Combinator(Combinator::Descendant));
    assert_eq!(tokens.len(), 3);
    let tokens = tokenize("a  >  b").unwrap();
    assert_eq!(tokens[1], Token::Combinator(Combinator::Child));
    assert_eq!(tokens.len(), 3);
    let tokens = tokenize("a > .c").unwrap();
    assert_eq!(tokens.len(), 3);
}

#[test]
fn sibling_combinators_are_unsupported() {
    match css_to_sql("a + b") {
        Err(SelectorError::UnsupportedFeature(m)) => assert!(m.contains("(+)")),
        other => panic!("unexpected {:?}", other),
    }
    match css_to_sql("a ~ b") {
        Err(SelectorError::UnsupportedFeature(m)) => assert!(m.contains("(~)")),
        other => panic!("unexpected {:?}", other),
    }
}

#[test]
fn embedded_quote_is_doubled() {
    let sql = css_to_sql("[title=\"o'brien\"]").unwrap();
    assert!(sql.ends_with("a2.value = 'o''brien'"));
    assert_eq!(escape_sql("it's 'x'"), "it''s ''x''");
    assert_eq!(escape_sql("plain"), "plain");
}

#[test]
fn compiling_twice_is_identical() {
    let s = "ul.menu > li a[href^='http']";
    assert_eq!(css_to_sql(s).unwrap(), css_to_sql(s).unwrap());
}

#[test]
fn empty_selector_selects_everything() {
    assert_eq!(css_to_sql("").unwrap(), "SELECT * FROM nodes");
    assert_eq!(css_to_sql("  \t ").unwrap(), "SELECT * FROM nodes");
    assert_eq!(css_to_sql("*").unwrap(), "SELECT * FROM nodes");
    assert!(!css_to_sql("").unwrap().contains("WHERE"));
}

#[test]
fn wildcard_adds_no_token() {
    assert_eq!(tokenize("*.x").unwrap(), vec![Token::Class("x".to_string())]);
}

#[test]
fn syntax_errors() {
    assert_eq!(tokenize("div$"), Err(parse_error("Unexpected character: $")));
    assert_eq!(tokenize("[a"), Err(parse_error("Unexpected end of attribute selector")));
    assert_eq!(tokenize("[a~b]"), Err(parse_error("Invalid attribute operator")));
    assert_eq!(tokenize("[a="), Err(parse_error("Expected attribute value")));
    assert_eq!(tokenize("[a='x'"), Err(parse_error("Expected closing bracket")));
    assert_eq!(tokenize("[a!]"), Err(parse_error("Unexpected character in attribute selector: !")));
    assert_eq!(tokenize("[a=x ]"), Err(parse_error("Expected closing bracket")));
    assert_eq!(tokenize("[a==b]"), Err(parse_error("Invalid attribute operator")));
    assert_eq!(tokenize("[a=]"), Err(parse_error("Expected attribute value")));
    assert_eq!(tokenize("[a~= ]"), Err(parse_error("Expected attribute value")));
    assert_eq!(
        tokenize("[a=\"\"]").unwrap(),
        vec![Token::Attribute { name: "a".to_string(), value: Some(String::new()), operator: AttributeOperator::Equals }]
    );
    assert_eq!(
        css_to_sql("div >"),
        Err(parse_error("Combinator must be followed by a selector"))
    );
}

#[test]
fn error_messages() {
    assert_eq!(parse_error("x").message(), "Parse error: x");
    assert_eq!(
        SelectorError::UnsupportedFeature("y".to_string()).message(),
        "Unsupported feature: y"
    );
}

#[test]
fn unicode_letters_and_digits() {
    assert_eq!(tokenize("für").unwrap(), vec![Token::TagName("für".to_string())]);
    assert_eq!(tokenize(".é2-x_").unwrap(), vec![Token::Class("é2-x_".to_string())]);
    assert!(tokenize("9a").is_err());
}

#[test]
fn generator_on_tokens() {
    assert_eq!(generate_sql(&[]).unwrap(), "SELECT * FROM nodes");
    let tokens = vec![
        Token::Attribute { name: "k".to_string(), value: Some("v".to_string()), operator: AttributeOperator::Exists },
        Token::Combinator(Combinator::Descendant),
        Token::Id("z".to_string()),
    ];
    let sql = generate_sql(&tokens).unwrap();
    assert!(sql.starts_with("SELECT DISTINCT n3.*\nFROM nodes n1\nJOIN attributes a2 ON a2.node_id = n1.id\nJOIN nodes n3"));
    assert!(sql.contains("JOIN attributes a4 ON a4.node_id = n3.id"));
    assert!(sql.ends_with("WHERE a2.name = 'k' AND a4.name = 'id' AND a4.value = 'z'"));
}

#[test]
fn alias_numbers() {
    assert_eq!(alias_text('n', 0), "n0");
    assert_eq!(alias_text('a', 12), "a12");
    assert_eq!(alias_text('n', 907), "n907");
}

#[test]
fn identifier_and_attribute_pieces() {
    let chars: Vec<char> = "ab-c_1.x".chars().collect();
    assert_eq!(xmlsql::lexer::collect_identifier(&chars, 0), ("ab-c_1".to_string(), 6));
    assert_eq!(xmlsql::lexer::collect_identifier(&chars, 6), (String::new(), 6));
    let chars: Vec<char> = "[lang |= en]".chars().collect();
    assert_eq!(
        xmlsql::lexer::parse_attribute(&chars, 1),
        Err(parse_error("Unexpected character in attribute selector: |"))
    );
    let chars: Vec<char> = "[lang = \"en\"]x".chars().collect();
    assert_eq!(
        xmlsql::lexer::parse_attribute(&chars, 1),
        Ok((
            Token::Attribute { name: "lang".to_string(), value: Some("en".to_string()), operator: AttributeOperator::Equals },
            13
        ))
    );
}
