use lib::compiler::code_gen::{
    assignment_code_gen, condition_expr_code_gen, declare_code_gen, deref_code_gen,
    function_call_code_gen, function_declare_code_gen, if_code_gen, main, scope_code_gen, Handler,
};
use lib::compiler::lexer::RhTypes;
use lib::compiler::parser::{AssignmentOpType, NodeType, ScopeType, TokenNode};

fn leaf(t: NodeType) -> TokenNode {
    TokenNode::new(t, None)
}

fn node(t: NodeType, kids: Vec<TokenNode>) -> TokenNode {
    TokenNode::new(t, Some(kids))
}

fn num(n: i32) -> TokenNode {
    leaf(NodeType::NumLiteral(n))
}

fn name(s: &str) -> TokenNode {
    leaf(NodeType::Id(s.to_string()))
}

const HEADER: &str = ".global .main\n.align 4\n";
const MAIN_LINES: [&str; 4] = ["; x29 is our sfb", ";x15 is our sp", "mov x29, sp", "mov x15, sp"];
const EXIT_LINES: [&str; 5] = ["", "; exit program gracefully", "mov x0, #0", "mov x16, #1", "svc #0x80"];

/// A block as the formatter writes it: its label line, then each other
/// line after a tab.
fn block(label: &str, lines: &[&str]) -> String {
    let mut s = format!("\n{}\n", label);
    for l in lines {
        s.push_str(&format!("\t{}\n", l));
    }
    s
}

fn program_of(stmts: Vec<TokenNode>) -> TokenNode {
    node(NodeType::Program, vec![node(NodeType::Scope(None), stmts)])
}

#[test]
fn compiles_a_declaration() {
    let tree = program_of(vec![node(NodeType::Declaration(("x".to_string(), RhTypes::Int)), vec![num(5)])]);
    let mut lines: Vec<&str> = MAIN_LINES.to_vec();
    lines.extend(["", "; var dec: x, offset: 8 (wrong for arrays)", "mov x9, #5", "str x9, [x15, #-8]!", ""]);
    lines.extend(EXIT_LINES);
    let expected = format!("{}{}", HEADER, block(".main:", &lines));
    assert_eq!(main(&tree), expected.trim_end());
}

#[test]
fn variable_is_read_from_its_slot() {
    let tree = program_of(vec![
        node(NodeType::Declaration(("x".to_string(), RhTypes::Int)), vec![num(5)]),
        node(NodeType::Declaration(("y".to_string(), RhTypes::Int)), vec![name("x")]),
    ]);
    let out = main(&tree);
    assert!(out.contains("\t; var dec: y, offset: 16 (wrong for arrays)\n\tldr x9, [x29, #-8]\n\tstr x9, [x15, #-8]!\n"));
}

#[test]
fn compiles_a_while_loop_with_break() {
    let cond = node(NodeType::EqCmp, vec![num(1), num(1)]);
    let body = node(NodeType::Scope(None), vec![leaf(NodeType::Break)]);
    let tree = program_of(vec![node(NodeType::While, vec![cond, body])]);
    let mut main_lines: Vec<&str> = MAIN_LINES.to_vec();
    main_lines.push("b .L2");
    let expected = format!(
        "{}{}{}{}{}{}",
        HEADER,
        block(".main:", &main_lines),
        block(
            ".L2:",
            &[
                "mov x9, #1",
                "str x9, [x15, #-8]!",
                "mov x9, #1",
                "str x9, [x15, #-8]!",
                "ldr x9, [x15], #8",
                "ldr x10, [x15], #8",
                "cmp x9, x10",
                "beq .L3",
            ]
        ),
        block(".L3:", &["; break statement", "b .L4"]),
        block(".L4:", &["; break statement", "b .L5"]),
        block(".L5:", &EXIT_LINES),
    );
    assert_eq!(main(&tree), expected.trim_end());
}

#[test]
fn compiles_a_function_and_a_call() {
    let param = node(NodeType::Declaration(("a".to_string(), RhTypes::Int)), vec![]);
    let body = node(
        NodeType::Scope(Some(RhTypes::Int)),
        vec![node(NodeType::AssignmentOp(AssignmentOpType::Eq), vec![name("a"), num(1)])],
    );
    let f = node(NodeType::FunctionDecaration(("f".to_string(), RhTypes::Void)), vec![param, body]);
    let call = node(NodeType::FunctionCall("f".to_string()), vec![num(7)]);
    let tree = program_of(vec![f, call]);
    let mut main_lines: Vec<&str> = MAIN_LINES.to_vec();
    main_lines.extend([
        "",
        "; place old sfb",
        "str x29, [x15, #-8]!",
        "mov x10, x15",
        "mov x9, #7",
        "str x9, [x15, #-8]!",
        "mov x29, x10",
        "bl .L2",
    ]);
    main_lines.extend(EXIT_LINES);
    let expected = format!(
        "{}{}{}",
        HEADER,
        block(".main:", &main_lines),
        block(
            ".L2:",
            &[
                "; function declaration",
                "; variable assignment",
                "mov x9, #1",
                "str x9, [x15, #-8]!",
                "ldr x9, [x15], #8",
                "str x9, [x29, #-8]",
                "",
                "",
                "; unload stack",
                "mov x15, x29",
                "add x15, x15, #8",
                "ldr x29, [x29]",
                "ret",
            ]
        ),
    );
    assert_eq!(main(&tree), expected.trim_end());
}

#[test]
fn non_program_root_compiles_nothing() {
    let tree = node(NodeType::Scope(None), vec![]);
    let mut lines: Vec<&str> = MAIN_LINES.to_vec();
    lines.extend(EXIT_LINES);
    let expected = format!("{}{}", HEADER, block(".main:", &lines));
    assert_eq!(main(&tree), expected.trim_end());
}

#[test]
fn output_has_no_surrounding_white_space() {
    let tree = program_of(vec![node(NodeType::Declaration(("x".to_string(), RhTypes::Int)), vec![num(-3)])]);
    let out = main(&tree);
    assert_eq!(out.trim(), out);
    assert!(out.contains("\tmov x9, #-3\n"));
}

#[test]
fn fresh_handler_formats_header_and_entry() {
    let h = Handler::new();
    let expected = format!("{}{}", HEADER, block(".main:", &MAIN_LINES));
    assert_eq!(h.format_scopes(), expected.trim_end());
}

#[test]
fn fresh_handler_listing() {
    let h = Handler::new();
    let listed = h.print_lines();
    assert_eq!(
        listed,
        vec![
            ".global .main",
            "\t.align 4",
            "\t",
            ".main:",
            "\t; x29 is our sfb",
            "\t;x15 is our sp",
            "\tmov x29, sp",
            "\tmov x15, sp"
        ]
    );
}

#[test]
fn compound_assignment_loads_old_value() {
    let mut h = Handler::new();
    declare_code_gen(&node(NodeType::Declaration(("x".to_string(), RhTypes::Int)), vec![num(2)]), &mut h, "x".to_string(), RhTypes::Int);
    assignment_code_gen(&node(NodeType::AssignmentOp(AssignmentOpType::AddEq), vec![name("x"), num(3)]), &mut h);
    let out = h.format_scopes();
    assert!(out.ends_with(
        "\t; variable assignment\n\tmov x9, #3\n\tstr x9, [x15, #-8]!\n\tldr x9, [x15], #8\n\tldr x10, [x29, #-8]\n\tadd x9, x9, x10\n\tstr x9, [x29, #-8]"
    ));
}

#[test]
fn store_through_an_address() {
    let mut h = Handler::new();
    declare_code_gen(&node(NodeType::Declaration(("p".to_string(), RhTypes::Int)), vec![num(0)]), &mut h, "p".to_string(), RhTypes::Int);
    let target = node(NodeType::DeRef, vec![name("p")]);
    assignment_code_gen(&node(NodeType::AssignmentOp(AssignmentOpType::Eq), vec![target, num(9)]), &mut h);
    let out = h.format_scopes();
    assert!(out.ends_with(
        "\t; deref assignment\n\tldr x9, [x29, #-8]\n\tstr x9, [x15, #-8]!\n\t\n\t; str offset to assign to\n\tmov x12, x15\n\tmov x9, #9\n\tstr x9, [x15, #-8]!\n\tldr x9, [x15], #8\n\tsub x12, x29, x12\n\tstr x9, [x13]"
    ));
}

#[test]
fn dereference_and_address_of() {
    let mut h = Handler::new();
    declare_code_gen(&node(NodeType::Declaration(("v".to_string(), RhTypes::Int)), vec![num(1)]), &mut h, "v".to_string(), RhTypes::Int);
    deref_code_gen(&node(NodeType::DeRef, vec![leaf(NodeType::Adr("v".to_string()))]), &mut h);
    let out = h.format_scopes();
    assert!(out.ends_with(
        "\t; getting the adr of: v\n\tmov x9, x29\n\tmov x10, #8\n\tsub x9, x9, x10\n\tstr x9, [x15, #-8]!\n\t\n\t; deref expr\n\tldr x9, [x15], #8\n\tsub x9, x9, #8\n\tldr x10, [x9]\n\tstr x10, [x15, #-8]!"
    ));
}

#[test]
fn if_statement_returns_and_steps_back() {
    let mut h = Handler::new();
    let cond = node(NodeType::NeqCmp, vec![num(1), num(2)]);
    let body = node(NodeType::Scope(None), vec![leaf(NodeType::Asm("nop".to_string()))]);
    if_code_gen(&node(NodeType::If, vec![cond, body]), &mut h);
    let out = h.format_scopes();
    let mut main_lines: Vec<&str> = MAIN_LINES.to_vec();
    main_lines.extend([
        "",
        "; if statement",
        "mov x9, #1",
        "str x9, [x15, #-8]!",
        "mov x9, #2",
        "str x9, [x15, #-8]!",
        "ldr x9, [x15], #8",
        "ldr x10, [x15], #8",
        "cmp x9, x10",
        "bne .L2",
    ]);
    let expected = format!(
        "{}{}{}",
        HEADER,
        block(".main:", &main_lines),
        block(".L2:", &["; scope of if statement", "nop", "ret"]),
    );
    assert_eq!(out, expected.trim_end());
}

#[test]
fn or_condition_drops_the_first_branch_block() {
    let mut h = Handler::new();
    let left = node(NodeType::EqCmp, vec![num(1), num(1)]);
    let right = node(NodeType::EqCmp, vec![num(2), num(2)]);
    condition_expr_code_gen(&node(NodeType::OrCmp, vec![left, right]), &mut h);
    let out = h.format_scopes();
    let mut main_lines: Vec<&str> = MAIN_LINES.to_vec();
    main_lines.extend([
        "mov x9, #1",
        "str x9, [x15, #-8]!",
        "mov x9, #1",
        "str x9, [x15, #-8]!",
        "ldr x9, [x15], #8",
        "ldr x10, [x15], #8",
        "cmp x9, x10",
        "beq .L2",
        "mov x9, #2",
        "str x9, [x15, #-8]!",
        "mov x9, #2",
        "str x9, [x15, #-8]!",
        "ldr x9, [x15], #8",
        "ldr x10, [x15], #8",
        "cmp x9, x10",
        "beq .L2",
    ]);
    let expected = format!("{}{}{}", HEADER, block(".main:", &main_lines), block(".L2:", &[]));
    assert_eq!(out, expected.trim_end());
}

#[test]
fn call_through_function_declared_in_parent_frame() {
    let mut h = Handler::new();
    let param = node(NodeType::Declaration(("n".to_string(), RhTypes::Char)), vec![]);
    let body = node(NodeType::Scope(None), vec![]);
    function_declare_code_gen(
        &node(NodeType::FunctionDecaration(("g".to_string(), RhTypes::Int)), vec![param, body]),
        &mut h,
        "g".to_string(),
        RhTypes::Int,
    );
    function_call_code_gen(&node(NodeType::FunctionCall("g".to_string()), vec![num(4)]), &mut h, "g".to_string());
    let out = h.format_scopes();
    assert!(out.contains("\tmov x29, x10\n\tbl .L2\n"));
    assert!(out.ends_with(".L2:\n\t; function declaration"));
}

#[test]
fn scope_of_a_loop_ends_with_a_branch() {
    let mut h = Handler::new();
    scope_code_gen(&node(NodeType::Scope(None), vec![leaf(NodeType::Loop)]), &mut h, ScopeType::While);
    assert!(h.format_scopes().ends_with("\tmov x15, sp\n\t; break statement\n\tb .L2"));
}

#[test]
fn return_ends_a_function_block() {
    let mut h = Handler::new();
    let body = node(
        NodeType::Scope(None),
        vec![node(NodeType::Return, vec![num(1)]), leaf(NodeType::Asm("after".to_string()))],
    );
    scope_code_gen(&body, &mut h, ScopeType::Function(RhTypes::Int));
    let out = h.format_scopes();
    assert!(out.ends_with("\tstr x9, [x15, #-8]!\n\tret"));
    assert!(!out.contains("after"));
}

#[test]
fn binary_expression_leaves_one_slot() {
    let sum = node(NodeType::Add, vec![num(1), num(2)]);
    let tree = program_of(vec![
        node(NodeType::Declaration(("x".to_string(), RhTypes::Int)), vec![sum]),
        node(NodeType::Declaration(("y".to_string(), RhTypes::Int)), vec![num(3)]),
    ]);
    let out = main(&tree);
    assert!(out.contains(
        "\t; load from stack\n\tldr x10, [x15], #8\n\tldr x9, [x15], #8\n\tadd x9, x9, x10\n\tstr x9, [x15, #-8]!\n"
    ));
    assert!(out.contains("\t; var dec: x, offset: 8 (wrong for arrays)\n"));
    assert!(out.contains("\t; var dec: y, offset: 16 (wrong for arrays)\n"));
}

#[test]
fn declaration_returns_its_code() {
    let mut h = Handler::new();
    let code = declare_code_gen(
        &node(NodeType::Declaration(("x".to_string(), RhTypes::Int)), vec![num(7)]),
        &mut h,
        "x".to_string(),
        RhTypes::Int,
    );
    assert_eq!(code, "\n\n; var dec: x, offset: 8 (wrong for arrays)\nmov x9, #7\nstr x9, [x15, #-8]!\n");
    let second = declare_code_gen(
        &node(NodeType::Declaration(("y".to_string(), RhTypes::Int)), vec![name("x")]),
        &mut h,
        "y".to_string(),
        RhTypes::Int,
    );
    assert_eq!(second, "\n\n; var dec: y, offset: 16 (wrong for arrays)\nldr x9, [x29, #-8]\nstr x9, [x15, #-8]!\n");
}

#[test]
fn block_code_is_its_halves_in_a_row() {
    let decl = |n: &str, v: i32| node(NodeType::Declaration((n.to_string(), RhTypes::Int)), vec![num(v)]);
    let mut whole = Handler::new();
    scope_code_gen(&node(NodeType::Scope(None), vec![decl("a", 1), decl("b", 2)]), &mut whole, ScopeType::Program);
    let mut halves = Handler::new();
    scope_code_gen(&node(NodeType::Scope(None), vec![decl("a", 1)]), &mut halves, ScopeType::Program);
    scope_code_gen(&node(NodeType::Scope(None), vec![decl("b", 2)]), &mut halves, ScopeType::Program);
    assert_eq!(whole.format_scopes(), halves.format_scopes());
}
