use lib::compiler::error::{RhErr, ET};
use lib::compiler::lexer::{LineNumHandler, RhTypes, Token};
use lib::compiler::parser::{program, program_checked, scope, statement, NodeType, ScopeType, TokenHandler, TokenNode};

fn id(s: &str) -> Token {
    Token::Id(s.to_string())
}

fn lines(n: usize) -> LineNumHandler {
    LineNumHandler { token_lines: (1..=n as i32).collect() }
}

fn children(n: &TokenNode) -> &Vec<TokenNode> {
    n.children.as_ref().expect("node has children")
}

fn parse(tokens: Vec<Token>) -> Result<TokenNode, RhErr> {
    let n = tokens.len();
    program(tokens, lines(n))
}

#[test]
fn declaration_with_value() {
    let tree = parse(vec![Token::Type(RhTypes::Int), id("x"), Token::Eq, Token::NumLiteral(5), Token::Semi]).unwrap();
    assert!(matches!(tree.token, NodeType::Program));
    let top = &children(&tree)[0];
    assert!(matches!(top.token, NodeType::Scope(None)));
    let decl = &children(top)[0];
    assert!(matches!(&decl.token, NodeType::Declaration((name, RhTypes::Int)) if name == "x"));
    assert_eq!(children(decl).len(), 1);
    assert!(matches!(children(decl)[0].token, NodeType::NumLiteral(5)));
}

#[test]
fn block_closed_after_semicolon_is_int_scope() {
    let tree = parse(vec![
        Token::Type(RhTypes::Int),
        id("x"),
        Token::Eq,
        Token::NumLiteral(5),
        Token::Semi,
        Token::CCurl,
    ])
    .unwrap();
    let top = &children(&tree)[0];
    assert!(matches!(top.token, NodeType::Scope(Some(RhTypes::Int))));
    assert_eq!(children(top).len(), 1);
}

#[test]
fn declaration_without_value_reads_two_tokens_past_the_name() {
    let res = parse(vec![Token::Type(RhTypes::Int), id("x"), Token::Semi, Token::CCurl]);
    assert_eq!(res.unwrap_err(), RhErr { err: ET::ExpectedSemi, line: 4 });
}

#[test]
fn plus_is_reported_then_semicolon_checked() {
    let res = parse(vec![
        Token::Type(RhTypes::Int),
        id("x"),
        Token::Eq,
        Token::NumLiteral(1),
        Token::Add,
        Token::NumLiteral(2),
        Token::Semi,
    ]);
    assert_eq!(res.unwrap_err(), RhErr { err: ET::ExpectedSemi, line: 6 });
}

#[test]
fn product_of_two_factors() {
    let tree = parse(vec![
        Token::Type(RhTypes::Int),
        id("y"),
        Token::Eq,
        Token::NumLiteral(2),
        Token::Star,
        Token::NumLiteral(3),
        Token::Semi,
    ])
    .unwrap();
    let decl = &children(&children(&tree)[0])[0];
    let product = &children(decl)[0];
    assert!(matches!(product.token, NodeType::Mul));
    assert!(matches!(children(product)[0].token, NodeType::NumLiteral(2)));
    assert!(matches!(children(product)[1].token, NodeType::NumLiteral(3)));
}

#[test]
fn parenthesised_factor_is_refused() {
    let res = parse(vec![
        Token::Type(RhTypes::Int),
        id("x"),
        Token::Eq,
        Token::OParen,
        Token::NumLiteral(5),
        Token::CParen,
        Token::Semi,
    ]);
    // The closing parenthesis is looked for on the number itself.
    assert_eq!(res.unwrap_err(), RhErr { err: ET::ExpectedSemi, line: 6 });
}

#[test]
fn assignment_statement() {
    let tree = parse(vec![id("x"), Token::AddEq, Token::NumLiteral(5), Token::Semi]).unwrap();
    let assign = &children(&children(&tree)[0])[0];
    assert!(matches!(&assign.token, NodeType::Assignment(n) if n == "x"));
    assert_eq!(children(assign).len(), 2);
    assert!(matches!(children(assign)[0].token, NodeType::NumLiteral(5)));
    assert!(matches!(children(assign)[1].token, NodeType::NumLiteral(5)));
}

#[test]
fn function_call_statement() {
    let tree = parse(vec![id("f"), Token::OParen, Token::NumLiteral(7), Token::CParen, Token::Semi]).unwrap();
    let call = &children(&children(&tree)[0])[0];
    assert!(matches!(&call.token, NodeType::FunctionCall(n) if n == "f"));
    assert_eq!(children(call).len(), 1);
    assert!(matches!(children(call)[0].token, NodeType::NumLiteral(7)));
}

#[test]
fn second_call_argument_is_refused() {
    let res = parse(vec![
        id("f"),
        Token::OParen,
        Token::NumLiteral(7),
        Token::Comma,
        Token::NumLiteral(8),
        Token::CParen,
        Token::Semi,
    ]);
    assert_eq!(res.unwrap_err(), RhErr { err: ET::ExpectedExpression, line: 4 });
}

#[test]
fn while_loop_with_break() {
    let tree = parse(vec![
        Token::While,
        Token::OParen,
        id("a"),
        Token::EqCmp,
        Token::NumLiteral(1),
        Token::CParen,
        Token::OCurl,
        Token::Break,
        Token::CCurl,
    ])
    .unwrap();
    let top = &children(&tree)[0];
    assert!(matches!(top.token, NodeType::Scope(None)));
    let w = &children(top)[0];
    assert!(matches!(w.token, NodeType::While));
    let cond = &children(w)[0];
    assert!(matches!(cond.token, NodeType::EqCmp));
    assert!(matches!(&children(cond)[0].token, NodeType::Id(n) if n == "a"));
    assert!(matches!(children(cond)[1].token, NodeType::NumLiteral(1)));
    let body = &children(w)[1];
    assert!(matches!(body.token, NodeType::Scope(None)));
    assert!(matches!(children(body)[0].token, NodeType::Break));
}

#[test]
fn chained_comparisons_group_to_the_left() {
    let tree = parse(vec![
        Token::If,
        Token::OParen,
        id("a"),
        Token::EqCmp,
        id("b"),
        Token::NeqCmp,
        Token::NumLiteral(3),
        Token::CParen,
        Token::OCurl,
        Token::Asm,
        Token::OParen,
        Token::StrLiteral("nop".to_string()),
        Token::CParen,
        Token::Semi,
        Token::CCurl,
    ])
    .unwrap();
    let if_node = &children(&children(&tree)[0])[0];
    assert!(matches!(if_node.token, NodeType::If));
    let cond = &children(if_node)[0];
    assert!(matches!(cond.token, NodeType::NeqCmp));
    assert!(matches!(children(cond)[0].token, NodeType::EqCmp));
    assert!(matches!(children(cond)[1].token, NodeType::NumLiteral(3)));
    let body = &children(if_node)[1];
    assert!(matches!(body.token, NodeType::Scope(Some(RhTypes::Int))));
    assert!(matches!(&children(body)[0].token, NodeType::Asm(s) if s == "nop"));
}

#[test]
fn and_in_condition_is_refused() {
    let res = parse(vec![
        Token::If,
        Token::OParen,
        id("a"),
        Token::AndCmp,
        id("b"),
        Token::CParen,
        Token::OCurl,
        Token::CCurl,
    ]);
    // The `&&` is read as an operand; then the `)` is missing at it.
    assert_eq!(res.unwrap_err(), RhErr { err: ET::ExpectedCParen, line: 4 });
}

#[test]
fn break_outside_loop_is_refused() {
    let res = parse(vec![Token::Break, Token::Semi]);
    assert_eq!(res.unwrap_err(), RhErr { err: ET::ExpectedStatement, line: 1 });
}

#[test]
fn asm_without_string_is_refused() {
    let res = parse(vec![Token::Asm, Token::OParen, Token::NumLiteral(1), Token::CParen, Token::Semi]);
    assert_eq!(res.unwrap_err(), RhErr { err: ET::ExpectedStrLiteral, line: 3 });
}

#[test]
fn function_declaration_with_one_parameter() {
    let tree = parse(vec![
        Token::Type(RhTypes::Int),
        id("f"),
        Token::OParen,
        Token::Type(RhTypes::Int),
        id("a"),
        Token::CParen,
        Token::OCurl,
        id("a"),
        Token::Eq,
        Token::NumLiteral(1),
        Token::Semi,
        Token::CCurl,
    ])
    .unwrap();
    let f = &children(&children(&tree)[0])[0];
    assert!(matches!(&f.token, NodeType::FunctionDecaration((n, RhTypes::Int)) if n == "f"));
    assert_eq!(children(f).len(), 2);
    assert!(matches!(&children(f)[0].token, NodeType::Declaration((n, RhTypes::Int)) if n == "a"));
    let body = &children(f)[1];
    assert!(matches!(body.token, NodeType::Scope(Some(RhTypes::Int))));
    assert!(matches!(&children(body)[0].token, NodeType::Assignment(n) if n == "a"));
}

#[test]
fn second_parameter_is_refused() {
    let res = parse(vec![
        Token::Type(RhTypes::Void),
        id("f"),
        Token::OParen,
        Token::Type(RhTypes::Int),
        id("a"),
        Token::Comma,
        Token::Type(RhTypes::Int),
        id("b"),
        Token::CParen,
        Token::OCurl,
        Token::CCurl,
    ]);
    assert_eq!(res.unwrap_err(), RhErr { err: ET::ExpectedType, line: 6 });
}

#[test]
fn return_type_arrow_is_refused() {
    let res = parse(vec![
        Token::Type(RhTypes::Void),
        id("f"),
        Token::OParen,
        Token::Type(RhTypes::Int),
        id("a"),
        Token::CParen,
        Token::Arrow,
        Token::Type(RhTypes::Int),
        Token::OCurl,
        Token::CCurl,
    ]);
    assert_eq!(res.unwrap_err(), RhErr { err: ET::ExpectedType, line: 8 });
}

#[test]
fn for_statement_is_refused_at_its_keyword() {
    let res = parse(vec![Token::For, Token::OParen, Token::CParen, Token::Semi]);
    assert_eq!(res.unwrap_err(), RhErr { err: ET::ExpectedType, line: 1 });
}

#[test]
fn statement_and_scope_from_a_handler() {
    let tokens = vec![id("x"), Token::Eq, Token::NumLiteral(2), Token::Semi, Token::Break, Token::CCurl];
    let mut th = TokenHandler::new(tokens, lines(6));
    let s = statement(&mut th, ScopeType::While).unwrap();
    assert!(matches!(&s.token, NodeType::Assignment(n) if n == "x"));
    assert!(matches!(th.get_token(), Token::Semi));
    let mut th = TokenHandler::new(
        vec![id("x"), Token::Eq, Token::NumLiteral(2), Token::Semi, Token::Break, Token::CCurl],
        lines(6),
    );
    let block = scope(&mut th, ScopeType::Loop).unwrap();
    assert!(matches!(block.token, NodeType::Scope(None)));
    assert_eq!(children(&block).len(), 2);
    assert!(matches!(children(&block)[1].token, NodeType::Break));
}

#[test]
fn token_handler_cursor() {
    let mut th = TokenHandler::new(vec![id("a"), Token::Semi, Token::CCurl], LineNumHandler { token_lines: vec![4, 5, 6] });
    assert_eq!(th.len(), 3);
    assert!(matches!(th.get_token(), Token::Id(n) if n == "a"));
    assert!(matches!(th.peek(2), Token::CCurl));
    th.next_token();
    assert!(matches!(th.get_prev_token(), Token::Id(_)));
    assert_eq!(th.new_err(ET::ExpectedId), RhErr { err: ET::ExpectedId, line: 5 });
    // Stepping back undoes stepping forward.
    th.next_token();
    th.prev_token();
    assert!(matches!(th.get_token(), Token::Semi));
}

#[test]
fn node_constructor_keeps_its_parts() {
    let n = TokenNode::new(NodeType::Break, None);
    assert!(matches!(n.token, NodeType::Break));
    assert!(n.children.is_none());
}

#[test]
fn checked_parse_gives_the_tree() {
    let tokens = vec![Token::Type(RhTypes::Int), id("x"), Token::Eq, Token::NumLiteral(5), Token::Semi];
    let tree = program_checked(tokens, lines(5)).expect("does not run out").unwrap();
    assert!(matches!(tree.token, NodeType::Program));
    let decl = &children(&children(&tree)[0])[0];
    assert!(matches!(&decl.token, NodeType::Declaration((name, RhTypes::Int)) if name == "x"));
}

#[test]
fn checked_parse_reports_running_out() {
    let tokens = vec![Token::Type(RhTypes::Int), id("x"), Token::Eq, Token::NumLiteral(5)];
    assert!(program_checked(tokens, lines(4)).is_none());
}

#[test]
fn checked_parse_reports_errors() {
    let tokens = vec![id("x"), Token::Eq, Token::NumLiteral(5), Token::NumLiteral(5), Token::Semi];
    let res = program_checked(tokens, lines(5)).expect("does not run out");
    assert_eq!(res.unwrap_err(), RhErr { err: ET::ExpectedSemi, line: 4 });
}

#[test]
fn checked_parse_needs_the_error_line() {
    assert!(program_checked(vec![Token::Semi], lines(0)).is_none());
    let res = program_checked(vec![Token::Semi], lines(1)).expect("line recorded");
    assert_eq!(res.unwrap_err(), RhErr { err: ET::ExpectedStatement, line: 1 });
}

#[test]
fn assignment_skips_the_token_after_the_name() {
    let tree = parse(vec![id("x"), id("y"), Token::NumLiteral(5), Token::Semi]).unwrap();
    let assign = &children(&children(&tree)[0])[0];
    assert!(matches!(&assign.token, NodeType::Assignment(n) if n == "x"));
    assert!(matches!(children(assign)[0].token, NodeType::NumLiteral(5)));
    assert!(matches!(children(assign)[1].token, NodeType::NumLiteral(5)));
}

#[test]
fn assignment_first_child_from_a_name() {
    let tree = parse(vec![id("x"), Token::Eq, id("y"), Token::Semi]).unwrap();
    let assign = &children(&children(&tree)[0])[0];
    assert!(matches!(&children(assign)[0].token, NodeType::Id(n) if n == "y"));
    assert!(matches!(&children(assign)[1].token, NodeType::Id(n) if n == "y"));
}

#[test]
fn assignment_of_a_parenthesis_panics() {
    let tokens = vec![id("x"), Token::Eq, Token::OParen, Token::NumLiteral(5), Token::CParen, Token::Semi];
    assert!(program_checked(tokens, lines(6)).is_none());
}

#[test]
fn arrow_at_the_end_runs_out() {
    let decl = vec![Token::Type(RhTypes::Int), id("f"), Token::OParen, Token::Type(RhTypes::Int), id("a"), Token::CParen, Token::Arrow];
    assert!(program_checked(decl.clone(), lines(9)).is_none());
    let mut typed = decl;
    typed.push(Token::Type(RhTypes::Int));
    let res = program_checked(typed, lines(8)).expect("does not run out");
    assert_eq!(res.unwrap_err(), RhErr { err: ET::ExpectedType, line: 8 });
}

#[test]
fn token_nodes_clone_whole_trees() {
    let tree = parse(vec![id("x"), Token::Eq, Token::NumLiteral(5), Token::Semi]).unwrap();
    let copy = tree.clone();
    let assign = &children(&children(&copy)[0])[0];
    assert!(matches!(&assign.token, NodeType::Assignment(n) if n == "x"));
    assert!(matches!(children(assign)[1].token, NodeType::NumLiteral(5)));
}
