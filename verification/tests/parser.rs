use red_js_interpreter::parser::{parse, precedence, ParseError, Parser};
use red_js_interpreter::ast::{Node, NodeKind};
use red_js_interpreter::token::BinaryOp;
use red_js_interpreter::token::Token;

#[test]
fn starts_at_the_first_token() {
    let p = Parser::new("a b");
    assert_eq!(p.index(), 0);
    assert_eq!(p.tokens().len(), 3);
    assert_eq!(p.tokens()[2], Token::Eof);
}

#[test]
fn bump_moves_one_token() {
    let mut p = Parser::new("a b");
    p.bump();
    assert_eq!(p.index(), 1);
}

#[test]
fn expect_ident_reads_a_name() {
    let mut p = Parser::new("name (");
    assert_eq!(p.expect_ident(), Ok("name".to_string()));
    assert_eq!(p.index(), 1);
    assert_eq!(p.expect_ident(), Err(ParseError::ExpectedIdentifier(1)));
    assert_eq!(p.index(), 1);
}

#[test]
fn reads_a_parameter_list() {
    let mut p = Parser::new("a, b, c) {");
    assert_eq!(
        p.parse_param_list(),
        Ok(vec!["a".to_string(), "b".to_string(), "c".to_string()])
    );
    assert_eq!(p.index(), 6);
    assert_eq!(p.tokens()[p.index()], Token::LBrace);
}

#[test]
fn a_parameter_list_stops_before_an_arrow() {
    let mut p = Parser::new("x => x");
    assert_eq!(p.parse_param_list(), Ok(vec!["x".to_string()]));
    assert_eq!(p.tokens()[p.index()], Token::Arrow);
}

#[test]
fn an_unclosed_parameter_list_is_refused() {
    let mut p = Parser::new("a, b");
    assert_eq!(p.parse_param_list(), Err(ParseError::ExpectedCloseParen(3)));
}

#[test]
fn skip_to_finds_the_token_or_the_end() {
    let mut p = Parser::new("function f (x) { }");
    p.skip_to(Token::LParen);
    assert_eq!(p.index(), 2);
    p.skip_to(Token::LBrace);
    assert_eq!(p.index(), 5);
    p.skip_to(Token::Semicolon);
    assert_eq!(p.tokens()[p.index()], Token::Eof);
}

#[test]
fn binding_powers_of_the_operators() {
    assert_eq!(precedence(&Token::Plus, None), Some((22, 23)));
    assert_eq!(precedence(&Token::Star, Some(&Token::Plus)), Some((24, 25)));
    assert_eq!(precedence(&Token::Or, Some(&Token::Or)), Some((6, 7)));
    assert_eq!(precedence(&Token::Or, None), Some((10, 11)));
    assert_eq!(precedence(&Token::And, Some(&Token::And)), Some((8, 9)));
    assert_eq!(precedence(&Token::And, Some(&Token::Plus)), Some((14, 15)));
    assert_eq!(precedence(&Token::QMark, None), Some((4, 5)));
    assert_eq!(precedence(&Token::InstanceOf, None), Some((18, 19)));
    assert_eq!(precedence(&Token::Semicolon, None), None);
}

fn expr(src: &str) -> Node {
    let mut p = Parser::new(src);
    let mut v = p.parse_expression(false).unwrap();
    assert_eq!(v.len(), 1);
    v.remove(0)
}

fn mantissa(n: &Node) -> String {
    assert_eq!(n.kind, NodeKind::Number);
    n.lit.as_ref().unwrap().mantissa.clone()
}

fn binary(n: &Node, op: BinaryOp) -> (&Node, &Node) {
    assert_eq!(n.kind, NodeKind::Binary);
    assert_eq!(n.op, Some(op));
    assert_eq!(n.children.len(), 2);
    (&n.children[0], &n.children[1])
}

fn only_in_exprs(n: &Node) -> &Node {
    assert_eq!(n.kind, NodeKind::Exprs);
    assert_eq!(n.children.len(), 1);
    &n.children[0]
}

#[test]
fn test_parse_number_literal() {
    assert_eq!(mantissa(&expr("42")), "42");
}

#[test]
fn test_parse_float_literal() {
    assert_eq!(mantissa(&expr("3.14")), "3.14");
}

#[test]
fn test_parse_string_literal() {
    let n = expr("\"hello\"");
    assert_eq!(n.kind, NodeKind::Str);
    assert_eq!(n.text, "hello");
}

#[test]
fn test_parse_true_literal() {
    let n = expr("true");
    assert_eq!(n.kind, NodeKind::Bool);
    assert!(n.flag);
}

#[test]
fn test_parse_false_literal() {
    let n = expr("false");
    assert_eq!(n.kind, NodeKind::Bool);
    assert!(!n.flag);
}

#[test]
fn test_parse_identifier() {
    let n = expr("myVar");
    assert_eq!(n.kind, NodeKind::Ident);
    assert_eq!(n.text, "myVar");
}

#[test]
fn test_parse_addition() {
    let n = expr("5 + 3");
    let (a, b) = binary(&n, BinaryOp::Add);
    assert_eq!(mantissa(a), "5");
    assert_eq!(mantissa(b), "3");
}

#[test]
fn test_parse_subtraction() {
    let n = expr("10 - 4");
    let (a, b) = binary(&n, BinaryOp::Sub);
    assert_eq!(mantissa(a), "10");
    assert_eq!(mantissa(b), "4");
}

#[test]
fn test_parse_multiplication() {
    let n = expr("6 * 7");
    let (a, b) = binary(&n, BinaryOp::Mul);
    assert_eq!(mantissa(a), "6");
    assert_eq!(mantissa(b), "7");
}

#[test]
fn test_parse_division() {
    let n = expr("20 / 4");
    let (a, b) = binary(&n, BinaryOp::Div);
    assert_eq!(mantissa(a), "20");
    assert_eq!(mantissa(b), "4");
}

#[test]
fn test_precedence_mul_before_add() {
    let n = expr("2 + 3 * 4");
    let (a, b) = binary(&n, BinaryOp::Add);
    assert_eq!(mantissa(a), "2");
    let (c, d) = binary(b, BinaryOp::Mul);
    assert_eq!(mantissa(c), "3");
    assert_eq!(mantissa(d), "4");
}

#[test]
fn test_precedence_left_associative_add() {
    let n = expr("1 + 2 + 3");
    let (a, b) = binary(&n, BinaryOp::Add);
    let (c, d) = binary(a, BinaryOp::Add);
    assert_eq!(mantissa(c), "1");
    assert_eq!(mantissa(d), "2");
    assert_eq!(mantissa(b), "3");
}

#[test]
fn test_precedence_complex() {
    let n = expr("2 + 3 * 4 - 5 / 2");
    let (a, b) = binary(&n, BinaryOp::Sub);
    binary(a, BinaryOp::Add);
    binary(b, BinaryOp::Div);
}

#[test]
fn test_parse_empty_object() {
    let n = expr("{}");
    assert_eq!(n.kind, NodeKind::Object);
    assert!(n.children.is_empty());
}

#[test]
fn test_parse_member_access() {
    let n = expr("obj.prop");
    assert_eq!(n.kind, NodeKind::Member);
    assert_eq!(n.children[0].kind, NodeKind::Ident);
    assert_eq!(n.children[0].text, "obj");
    assert_eq!(n.children[1].kind, NodeKind::Str);
    assert_eq!(n.children[1].text, "prop");
}

#[test]
fn test_parse_index_access() {
    let n = expr("arr[0]");
    assert_eq!(n.kind, NodeKind::Member);
    assert_eq!(n.children[0].text, "arr");
    assert_eq!(mantissa(only_in_exprs(&n.children[1])), "0");
}

#[test]
fn test_parse_function_call_no_args() {
    let n = expr("func()");
    assert_eq!(n.kind, NodeKind::Call);
    assert_eq!(n.children[0].text, "func");
    assert_eq!(n.children[1].kind, NodeKind::Exprs);
    assert!(n.children[1].children.is_empty());
}

#[test]
fn test_parse_function_call_single_arg() {
    let n = expr("func(42)");
    assert_eq!(n.kind, NodeKind::Call);
    assert_eq!(mantissa(only_in_exprs(&n.children[1])), "42");
}

#[test]
fn test_parse_simple_assignment() {
    let n = expr("x = 5");
    assert_eq!(n.kind, NodeKind::Assign);
    assert_eq!(n.children[0].text, "x");
    assert_eq!(mantissa(only_in_exprs(&n.children[1])), "5");
}

#[test]
fn test_parse_parenthesized_expression() {
    assert_eq!(mantissa(&expr("(42)")), "42");
}

#[test]
fn test_parse_let_declaration_with_init() {
    let body = parse("let x = 42;").unwrap();
    assert_eq!(body.len(), 1);
    assert_eq!(body[0].kind, NodeKind::VarDecl);
    assert_eq!(body[0].text, "x");
    assert_eq!(mantissa(only_in_exprs(&body[0].children[0])), "42");
}

#[test]
fn test_parse_return_with_value() {
    let body = parse("function f() { return 42; }").unwrap();
    assert_eq!(body.len(), 1);
    let ret = &body[0].children[0];
    assert_eq!(ret.kind, NodeKind::Return);
    assert_eq!(mantissa(only_in_exprs(&ret.children[0])), "42");
}

#[test]
fn test_parse_empty_program() {
    assert_eq!(parse("").unwrap(), Vec::<Node>::new());
}

#[test]
fn test_parse_error_unclosed_paren() {
    assert!(parse("let x = (1 + 2;").is_err());
}

#[test]
fn parser_refuses_new() {
    assert!(parse("new Foo()").is_err());
}

#[test]
fn parser_reports_unclosed_comment() {
    assert_eq!(parse("1 /* open"), Err(ParseError::UnclosedComment));
}

#[test]
fn parser_reads_while_loop_with_label() {
    let mut p = Parser::new("while (x) { y }");
    let n = p.parse_loop(Some("outer".to_string())).unwrap();
    assert_eq!(n.kind, NodeKind::Loop);
    assert_eq!(n.names, vec!["outer".to_string()]);
    assert!(!n.flag);
    assert_eq!(n.children.len(), 5);
    assert_eq!(n.children[0].kind, NodeKind::Empty);
    assert_eq!(only_in_exprs(&n.children[1]).text, "x");
    assert_eq!(n.children[2].kind, NodeKind::Empty);
    assert_eq!(only_in_exprs(&n.children[3]).text, "y");
    assert_eq!(n.children[4].kind, NodeKind::Empty);
    assert_eq!(p.index(), 7);
}

#[test]
fn parser_reads_primary_and_block() {
    let mut p = Parser::new("a { c }");
    let n = p.parse_primary().unwrap();
    assert_eq!(n.kind, NodeKind::Ident);
    assert_eq!(n.text, "a");
    assert_eq!(p.index(), 1);
    let b = p.parse_block().unwrap();
    assert_eq!(b.len(), 1);
    assert_eq!(b[0].text, "c");
    assert_eq!(p.index(), 4);
}

#[test]
fn parser_reads_unary_minus() {
    let mut p = Parser::new("-x");
    let n = p.parse_call_or_primary(true);
    assert!(n.is_err());
    let mut q = Parser::new("-x");
    let v = q.parse_expression(false).unwrap();
    let (z, x) = binary(&v[0], BinaryOp::Sub);
    assert_eq!(z.kind, NodeKind::FloatZero);
    assert_eq!(x.text, "x");
}

fn entries(n: &Node) -> Vec<(String, &Node)> {
    assert_eq!(n.kind, NodeKind::Object);
    assert_eq!(n.children.len() % 2, 0);
    n.children.chunks(2).map(|c| {
        assert_eq!(c[0].kind, NodeKind::Str);
        (c[0].text.clone(), only_in_exprs(&c[1]))
    }).collect()
}

fn function(n: &Node, name: &str, params: &[&str]) {
    assert_eq!(n.kind, NodeKind::Function);
    assert_eq!(n.text, name);
    let ps: Vec<String> = params.iter().map(|p| p.to_string()).collect();
    assert_eq!(n.names, ps);
}

fn statements(src: &str) -> Vec<Node> {
    parse(src).unwrap()
}

#[test]
fn test_parse_object_with_string_key() {
    let n = expr(r#"{ "name": "John" }"#);
    let es = entries(&n);
    assert_eq!(es.len(), 1);
    assert_eq!(es[0].0, "name");
    assert_eq!(es[0].1.kind, NodeKind::Str);
    assert_eq!(es[0].1.text, "John");
}

#[test]
fn test_parse_object_with_identifier_key() {
    let n = expr("{ age: 30 }");
    let es = entries(&n);
    assert_eq!(es.len(), 1);
    assert_eq!(es[0].0, "age");
    assert_eq!(mantissa(es[0].1), "30");
}

#[test]
fn test_parse_object_with_multiple_properties() {
    let n = expr(r#"{ name: "Alice", age: 25, active: true }"#);
    let es = entries(&n);
    assert_eq!(es.len(), 3);
    assert_eq!(es[0].0, "name");
    assert_eq!(es[0].1.text, "Alice");
    assert_eq!(es[1].0, "age");
    assert_eq!(mantissa(es[1].1), "25");
    assert_eq!(es[2].0, "active");
    assert_eq!(es[2].1.kind, NodeKind::Bool);
    assert!(es[2].1.flag);
}

#[test]
fn test_parse_nested_object() {
    let n = expr(r#"{ person: { name: "Bob" } }"#);
    let es = entries(&n);
    assert_eq!(es.len(), 1);
    assert_eq!(es[0].0, "person");
    let inner = entries(es[0].1);
    assert_eq!(inner.len(), 1);
    assert_eq!(inner[0].0, "name");
    assert_eq!(inner[0].1.text, "Bob");
}

#[test]
fn test_parse_chained_member_access() {
    let n = expr("obj.prop.nested");
    assert_eq!(n.kind, NodeKind::Member);
    assert_eq!(n.children[1].text, "nested");
    let m = &n.children[0];
    assert_eq!(m.kind, NodeKind::Member);
    assert_eq!(m.children[0].text, "obj");
    assert_eq!(m.children[1].text, "prop");
}

#[test]
fn test_parse_index_with_string() {
    let n = expr(r#"obj["key"]"#);
    assert_eq!(n.kind, NodeKind::Member);
    assert_eq!(n.children[0].text, "obj");
    let k = only_in_exprs(&n.children[1]);
    assert_eq!(k.kind, NodeKind::Str);
    assert_eq!(k.text, "key");
}

#[test]
fn test_parse_member_and_index_chaining() {
    let n = expr("obj.arr[0]");
    assert_eq!(n.kind, NodeKind::Member);
    assert_eq!(mantissa(only_in_exprs(&n.children[1])), "0");
    let m = &n.children[0];
    assert_eq!(m.kind, NodeKind::Member);
    assert_eq!(m.children[0].text, "obj");
    assert_eq!(m.children[1].text, "arr");
}

#[test]
fn test_parse_function_call_multiple_args() {
    let n = expr("func(1, 2, 3)");
    assert_eq!(n.kind, NodeKind::Call);
    assert_eq!(n.children[0].text, "func");
    let args = &n.children[1].children;
    assert_eq!(args.len(), 3);
    assert_eq!(mantissa(&args[0]), "1");
    assert_eq!(mantissa(&args[1]), "2");
    assert_eq!(mantissa(&args[2]), "3");
}

#[test]
fn test_parse_method_call() {
    let n = expr("obj.method()");
    assert_eq!(n.kind, NodeKind::Call);
    let m = &n.children[0];
    assert_eq!(m.kind, NodeKind::Member);
    assert_eq!(m.children[0].text, "obj");
    assert_eq!(m.children[1].text, "method");
    assert!(n.children[1].children.is_empty());
}

#[test]
fn test_parse_chained_method_calls() {
    let n = expr("obj.method1().method2()");
    assert_eq!(n.kind, NodeKind::Call);
    let m = &n.children[0];
    assert_eq!(m.kind, NodeKind::Member);
    assert_eq!(m.children[1].text, "method2");
    let inner = &m.children[0];
    assert_eq!(inner.kind, NodeKind::Call);
    assert_eq!(inner.children[0].children[1].text, "method1");
}

#[test]
fn test_parse_member_assignment() {
    let n = expr("obj.prop = 10");
    assert_eq!(n.kind, NodeKind::Assign);
    assert_eq!(n.children[0].kind, NodeKind::Member);
    assert_eq!(n.children[0].children[1].text, "prop");
    assert_eq!(mantissa(only_in_exprs(&n.children[1])), "10");
}

#[test]
fn test_parse_index_assignment() {
    let n = expr(r#"arr[0] = "value""#);
    assert_eq!(n.kind, NodeKind::Assign);
    assert_eq!(n.children[0].kind, NodeKind::Member);
    assert_eq!(n.children[0].children[0].text, "arr");
    let v = only_in_exprs(&n.children[1]);
    assert_eq!(v.kind, NodeKind::Str);
    assert_eq!(v.text, "value");
}

#[test]
fn test_parse_parentheses_override_precedence() {
    let n = expr("(2 + 3) * 4");
    let (a, b) = binary(&n, BinaryOp::Mul);
    let (c, d) = binary(a, BinaryOp::Add);
    assert_eq!(mantissa(c), "2");
    assert_eq!(mantissa(d), "3");
    assert_eq!(mantissa(b), "4");
}

#[test]
fn test_parse_postfix_decrement() {
    let n = expr("x--");
    assert_eq!(n.kind, NodeKind::Postfix);
    assert!(!n.flag);
    assert_eq!(n.children[0].text, "x");
}

#[test]
fn test_parse_function_expression_no_params() {
    let n = expr("function() { return 42; }");
    function(&n, "anonymous function", &[]);
    assert_eq!(n.children.len(), 1);
    assert_eq!(n.children[0].kind, NodeKind::Return);
}

#[test]
fn test_parse_named_function_expression() {
    let n = expr("function myFunc(a, b) { return a + b; }");
    function(&n, "myFunc", &["a", "b"]);
    assert_eq!(n.children.len(), 1);
    let (a, b) = binary(only_in_exprs(&n.children[0].children[0]), BinaryOp::Add);
    assert_eq!(a.text, "a");
    assert_eq!(b.text, "b");
}

#[test]
fn test_parse_function_expression_with_params() {
    let n = expr("function(x, y, z) { return x; }");
    function(&n, "anonymous function", &["x", "y", "z"]);
}

#[test]
fn test_parse_let_declaration_no_init() {
    let body = statements("let x;");
    assert_eq!(body.len(), 1);
    assert_eq!(body[0].kind, NodeKind::VarDecl);
    assert_eq!(body[0].text, "x");
    assert!(body[0].children.is_empty());
}

#[test]
fn test_parse_const_declaration() {
    let body = statements("const PI = 3.14159;");
    assert_eq!(body.len(), 1);
    assert_eq!(body[0].kind, NodeKind::VarDecl);
    assert_eq!(body[0].text, "PI");
    assert_eq!(mantissa(only_in_exprs(&body[0].children[0])), "3.14159");
}

#[test]
fn test_parse_function_declaration() {
    let body = statements("function add(a, b) { return a + b; }");
    assert_eq!(body.len(), 1);
    function(&body[0], "add", &["a", "b"]);
    assert!(body[0].flag2);
}

#[test]
fn test_parse_function_declaration_no_params() {
    let body = statements("function greet() { return 42; }");
    assert_eq!(body.len(), 1);
    function(&body[0], "greet", &[]);
}

#[test]
fn test_parse_function_with_multiple_statements() {
    let body = statements("function test() { return 1; return 2; }");
    assert_eq!(body.len(), 1);
    function(&body[0], "test", &[]);
    assert_eq!(body[0].children.len(), 2);
    assert_eq!(body[0].children[0].kind, NodeKind::Return);
    assert_eq!(body[0].children[1].kind, NodeKind::Return);
}

#[test]
fn test_parse_class_declaration() {
    let body = statements("class MyClass { myMethod(x) { return x; } }");
    assert_eq!(body.len(), 1);
    let c = &body[0];
    assert_eq!(c.kind, NodeKind::Class);
    assert_eq!(c.text, "MyClass");
    assert_eq!(c.children.len(), 2);
    assert_eq!(c.children[0].kind, NodeKind::Empty);
    function(&c.children[1], "myMethod", &["x"]);
}

#[test]
fn test_parse_class_with_multiple_methods() {
    let body = statements("class Animal { speak() { return 1; } move() { return 2; } }");
    let c = &body[0];
    assert_eq!(c.kind, NodeKind::Class);
    assert_eq!(c.children.len(), 3);
    function(&c.children[1], "speak", &[]);
    function(&c.children[2], "move", &[]);
}

#[test]
fn test_parse_class_method_with_params() {
    let body = statements("class Point { constructor(x, y) { return 0; } }");
    let c = &body[0];
    assert_eq!(c.text, "Point");
    function(&c.children[1], "constructor", &["x", "y"]);
}

#[test]
fn test_parse_class_extends() {
    let body = statements("class Cat extends Animal { constructor(name) { super(name); } }");
    let c = &body[0];
    assert_eq!(c.text, "Cat");
    assert_eq!(c.children[0].kind, NodeKind::Ident);
    assert_eq!(c.children[0].text, "Animal");
    function(&c.children[1], "constructor", &["name"]);
}

#[test]
fn test_parse_return_without_value() {
    let body = statements("function f() { return 0; }");
    let ret = &body[0].children[0];
    assert_eq!(ret.kind, NodeKind::Return);
    assert_eq!(mantissa(only_in_exprs(&ret.children[0])), "0");
}

#[test]
fn test_parse_expression_statement() {
    let body = statements("x + 5;");
    assert_eq!(body.len(), 1);
    let (a, b) = binary(&body[0], BinaryOp::Add);
    assert_eq!(a.text, "x");
    assert_eq!(mantissa(b), "5");
}

#[test]
fn test_parse_function_call_statement() {
    let body = statements("myFunc(1, 2);");
    assert_eq!(body.len(), 1);
    assert_eq!(body[0].kind, NodeKind::Call);
    assert_eq!(body[0].children[0].text, "myFunc");
    assert_eq!(body[0].children[1].children.len(), 2);
}

#[test]
fn test_parse_program_single_statement() {
    assert_eq!(statements("let x = 5;").len(), 1);
}

#[test]
fn test_parse_program_multiple_statements() {
    let body = statements("let x = 5; let y = 10; x + y;");
    assert_eq!(body.len(), 3);
    assert_eq!(body[0].kind, NodeKind::VarDecl);
    assert_eq!(body[1].kind, NodeKind::VarDecl);
    assert_eq!(body[2].kind, NodeKind::Binary);
}

#[test]
fn test_parse_program_with_function_and_call() {
    let src = r#"
        function add(a, b) {
            return a + b;
        }
        add(1, 2);
    "#;
    let body = statements(src);
    assert_eq!(body.len(), 2);
    assert_eq!(body[0].kind, NodeKind::Function);
    assert_eq!(body[1].kind, NodeKind::Call);
}

#[test]
fn test_parse_error_unclosed_brace() {
    let mut p = Parser::new("{ a: 1");
    assert!(p.parse_expression(false).is_err());
}

#[test]
fn test_parse_error_missing_colon_in_object() {
    let mut p = Parser::new("{ a 1 }");
    assert!(p.parse_expression(false).is_err());
}

#[test]
fn test_parse_complex_arithmetic_expression() {
    let n = expr("2 * (3 + 4) - 5 / 2");
    binary(&n, BinaryOp::Sub);
}

#[test]
fn test_parse_complex_object_with_mixed_values() {
    let src = r#"
        {
            name: "test",
            count: 42,
            active: true,
            nested: { value: 99 }
        }
    "#;
    assert_eq!(entries(&expr(src)).len(), 4);
}

#[test]
fn test_parse_method_chain_with_args() {
    let n = expr("obj.method1(1, 2).method2(3).method3()");
    assert_eq!(n.kind, NodeKind::Call);
    assert!(n.children[1].children.is_empty());
}

#[test]
fn test_parse_complex_program() {
    let src = r#"
        let obj = { x: 10, y: 20 };
        function compute(a, b) {
            return a + b;
        }
        let value = compute(obj.x, obj.y);
    "#;
    assert!(statements(src).len() >= 3);
}
