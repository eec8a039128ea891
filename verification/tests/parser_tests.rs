use uorm::ast::{AstNode, Expr, Op};
use uorm::parser::parse_template;
use uorm::value::Value;

#[test]
fn test_parse_simple_text() {
    let tpl = "hello world";
    let nodes = parse_template(tpl);
    assert_eq!(nodes.len(), 1);
    match &nodes[0] {
        AstNode::Text(t) => assert_eq!(t, "hello world"),
        _ => panic!("Expected Text"),
    }
}

#[test]
fn test_parse_merged_text() {
    let tpl = "hello < world";
    let nodes = parse_template(tpl);
    assert_eq!(nodes.len(), 1);
    match &nodes[0] {
        AstNode::Text(t) => assert_eq!(t, "hello < world"),
        _ => panic!("Expected Text"),
    }
}

#[test]
fn test_parse_var() {
    let tpl = "hello #{name}!";
    let nodes = parse_template(tpl);
    assert_eq!(nodes.len(), 3);
    match &nodes[0] {
        AstNode::Text(t) => assert_eq!(t, "hello "),
        _ => panic!(),
    }
    match &nodes[1] {
        AstNode::Var(v) => assert_eq!(v, "name"),
        _ => panic!(),
    }
    match &nodes[2] {
        AstNode::Text(t) => assert_eq!(t, "!"),
        _ => panic!(),
    }
}

#[test]
fn test_parse_if() {
    let tpl = r#"<if test="a > 1">content</if>"#;
    let nodes = parse_template(tpl);
    assert_eq!(nodes.len(), 1);
    match &nodes[0] {
        AstNode::If { test, body } => {
            match test {
                Expr::Binary(Op::Gt, left, right) => {
                    assert_eq!(**left, Expr::Var("a".to_string()));
                    assert_eq!(**right, Expr::Literal(Value::I64(1)));
                }
                _ => panic!("Expected Binary expression, got {:?}", test),
            }
            assert_eq!(body.len(), 1);
            match &body[0] {
                AstNode::Text(t) => assert_eq!(t, "content"),
                _ => panic!(),
            }
        }
        _ => panic!("Expected If"),
    }
}

#[test]
fn test_parse_nested() {
    let tpl = r#"<if test="x"><foreach item="i" collection="list">#{i}</foreach></if>"#;
    let nodes = parse_template(tpl);
    assert_eq!(nodes.len(), 1);
    match &nodes[0] {
        AstNode::If { body, .. } => {
            assert_eq!(body.len(), 1);
            match &body[0] {
                AstNode::Foreach { item, body, .. } => {
                    assert_eq!(item, "i");
                    assert_eq!(body.len(), 1);
                }
                _ => panic!("Expected Foreach"),
            }
        }
        _ => panic!("Expected If"),
    }
}

#[test]
fn test_auto_close() {
    let tpl = r#"<if test="x">content"#;
    let nodes = parse_template(tpl);
    assert_eq!(nodes.len(), 1);
    match &nodes[0] {
        AstNode::If { test, body } => {
            match test {
                Expr::Var(v) => assert_eq!(v, "x"),
                _ => panic!("Expected Var"),
            }
            assert_eq!(body.len(), 1);
            match &body[0] {
                AstNode::Text(t) => assert_eq!(t, "content"),
                _ => panic!(),
            }
        }
        _ => panic!("Expected If"),
    }
}

#[test]
fn test_malformed_tags() {
    let tpl = r#"<if test="x"> <unknown> #{ unclosed"#;
    let nodes = parse_template(tpl);
    assert_eq!(nodes.len(), 1);
    match &nodes[0] {
        AstNode::If { body, .. } => {
            assert_eq!(body.len(), 1);
            match &body[0] {
                AstNode::Text(t) => assert_eq!(t, " <unknown> #{ unclosed"),
                _ => panic!("Expected Text, got {:?}", body[0]),
            }
        }
        _ => panic!("Expected If"),
    }
}

#[test]
fn whitespace_block_tag_trims_newline_runs() {
    // a block-style body written across lines loses the blank lines
    let tpl = "<if test=\"a\">\n  and status=1\n</if>";
    let nodes = parse_template(tpl);
    match &nodes[0] {
        AstNode::If { body, .. } => {
            assert_eq!(body.len(), 1);
            match &body[0] {
                AstNode::Text(t) => assert_eq!(t, "and status=1"),
                _ => panic!(),
            }
        }
        _ => panic!("Expected If"),
    }
    // the same tag written inline keeps its spacing exactly
    let tpl2 = "<if test=\"a\"> and status=1 </if>";
    let nodes2 = parse_template(tpl2);
    match &nodes2[0] {
        AstNode::If { body, .. } => {
            match &body[0] {
                AstNode::Text(t) => assert_eq!(t, " and status=1 "),
                _ => panic!(),
            }
        }
        _ => panic!("Expected If"),
    }
}

#[test]
fn numeric_literals_parse_in_tests() {
    let tpl = r#"<if test="a == 10">x</if>"#;
    let nodes = parse_template(tpl);
    match &nodes[0] {
        AstNode::If { test, .. } => match test {
            Expr::Binary(Op::Eq, _, right) => {
                assert_eq!(**right, Expr::Literal(Value::I64(10)));
            }
            _ => panic!(),
        },
        _ => panic!(),
    }
}
