use minilang::lexer::{Lexer, Token};
use minilang::parser::decls::{Decl, Decls};
use minilang::parser::expr::{
    combine_expression, get_priority, perform_operation, Expr, ExprData, Operation,
};
use minilang::parser::program::Program;
use minilang::parser::stmts::{
    parse_stmt, AssignStmt, ControlStmt, ControlType, PrintStmt, StmtType, Stmts,
};
use minilang::parser::var::Var;
use minilang::parser::SyntaxError;

fn tokens(src: &str) -> Vec<Token> {
    Lexer::new().unwrap().tokenize(src.to_string()).unwrap()
}

fn name(s: &str) -> Token {
    Token::Name(s.to_string())
}

fn leaf_name(s: &str) -> Box<Expr> {
    Box::new(Expr::Unary(ExprData::Name(s.to_string())))
}

fn leaf_int(n: i16) -> Box<Expr> {
    Box::new(Expr::Unary(ExprData::IntLit(n)))
}

fn binary(l: Box<Expr>, op: Operation, r: Box<Expr>) -> Box<Expr> {
    Box::new(Expr::Binary(l, r, op))
}

/// The priority of the operator at the root; a leaf binds tighter than all.
fn root_priority(e: &Expr) -> u8 {
    match e {
        Expr::Unary(_) => 4,
        Expr::Binary(_, _, op) => get_priority(op),
    }
}

/// Left operands bind at least as tightly as their operator, right operands
/// strictly tighter.
fn ordered(e: &Expr) -> bool {
    match e {
        Expr::Unary(_) => true,
        Expr::Binary(l, r, op) => {
            ordered(l)
                && ordered(r)
                && root_priority(l) >= get_priority(op)
                && root_priority(r) > get_priority(op)
        }
    }
}

#[test]
fn priorities() {
    assert_eq!(get_priority(&Operation::Times), 3);
    assert_eq!(get_priority(&Operation::Plus), 2);
    assert_eq!(get_priority(&Operation::Equals), 1);
    assert_eq!(get_priority(&Operation::GT), 1);
    assert_eq!(get_priority(&Operation::LT), 1);
}

#[test]
fn operators_from_tokens() {
    assert_eq!(Operation::from_token(&Token::Times), Some(Operation::Times));
    assert_eq!(Operation::from_token(&Token::Plus), Some(Operation::Plus));
    assert_eq!(Operation::from_token(&Token::Equals), Some(Operation::Equals));
    assert_eq!(Operation::from_token(&Token::GT), Some(Operation::GT));
    assert_eq!(Operation::from_token(&Token::LT), Some(Operation::LT));
    assert_eq!(Operation::from_token(&Token::Assign), None);
    assert_eq!(Operation::from_token(&name("x")), None);
}

#[test]
fn operands_from_tokens() {
    assert_eq!(ExprData::from_token(&name("x")), Some(ExprData::Name("x".to_string())));
    assert_eq!(ExprData::from_token(&Token::IntLit(7)), Some(ExprData::IntLit(7)));
    assert_eq!(
        ExprData::from_token(&Token::StringLit("s".to_string())),
        Some(ExprData::StrLit("s".to_string()))
    );
    assert_eq!(ExprData::from_token(&Token::Plus), None);
    assert_eq!(ExprData::from_token(&Token::EOF), None);
}

#[test]
fn types_from_tokens() {
    assert_eq!(Var::from_token(&Token::Int), Some(Var::Int));
    assert_eq!(Var::from_token(&Token::Str), Some(Var::Str));
    assert_eq!(Var::from_token(&Token::Bool), Some(Var::Bool));
    assert_eq!(Var::from_token(&Token::While), None);
}

#[test]
fn combine_takes_the_top_as_right_operand() {
    let mut exprs = vec![*leaf_int(9), *leaf_int(2), *leaf_int(1)];
    let mut ops = vec![Operation::Plus, Operation::GT];
    combine_expression(&mut exprs, &mut ops);
    assert_eq!(ops, vec![Operation::Plus]);
    assert_eq!(exprs, vec![*leaf_int(9), *binary(leaf_int(2), Operation::GT, leaf_int(1))]);
}

#[test]
fn perform_joins_what_binds_at_least_as_tightly() {
    // a + b * c, then an incoming `+`: both operators on the stack are joined.
    let mut exprs = vec![*leaf_name("a"), *leaf_name("b"), *leaf_name("c")];
    let mut ops = vec![Operation::Plus, Operation::Times];
    perform_operation(&mut exprs, &mut ops, Operation::Plus);
    assert_eq!(ops, vec![Operation::Plus]);
    assert_eq!(
        exprs,
        vec![*binary(
            leaf_name("a"),
            Operation::Plus,
            binary(leaf_name("b"), Operation::Times, leaf_name("c"))
        )]
    );
}

#[test]
fn perform_keeps_what_binds_looser() {
    let mut exprs = vec![*leaf_name("a"), *leaf_name("b")];
    let mut ops = vec![Operation::Plus];
    perform_operation(&mut exprs, &mut ops, Operation::Times);
    assert_eq!(ops, vec![Operation::Plus, Operation::Times]);
    assert_eq!(exprs, vec![*leaf_name("a"), *leaf_name("b")]);
}

#[test]
fn product_binds_tighter_than_sum() {
    let lex = tokens("2 + 3 * 4");
    let mut x = 0;
    let e = Expr::new(&lex, &mut x).unwrap();
    assert_eq!(x, 5);
    assert_eq!(e, binary(leaf_int(2), Operation::Plus, binary(leaf_int(3), Operation::Times, leaf_int(4))));
    let lex = tokens("2 * 3 + 4");
    let mut x = 0;
    let e = Expr::new(&lex, &mut x).unwrap();
    assert_eq!(e, binary(binary(leaf_int(2), Operation::Times, leaf_int(3)), Operation::Plus, leaf_int(4)));
}

#[test]
fn equal_priority_groups_to_the_left() {
    let lex = tokens("a + b + c");
    let mut x = 0;
    let e = Expr::new(&lex, &mut x).unwrap();
    assert_eq!(
        e,
        binary(binary(leaf_name("a"), Operation::Plus, leaf_name("b")), Operation::Plus, leaf_name("c"))
    );
    let lex = tokens("a > b == c < d");
    let mut x = 0;
    let e = Expr::new(&lex, &mut x).unwrap();
    assert_eq!(
        e,
        binary(
            binary(binary(leaf_name("a"), Operation::GT, leaf_name("b")), Operation::Equals, leaf_name("c")),
            Operation::LT,
            leaf_name("d")
        )
    );
}

#[test]
fn trees_are_ordered_by_precedence() {
    for src in [
        "a",
        "a + b * c == d",
        "a == b + c * d",
        "a * b * c + d + e > f",
        "1 < 2 + 3 * 4 * 5 + 6 == 7",
        "a * b + c * d + e * f",
    ] {
        let lex = tokens(src);
        let mut x = 0;
        let e = Expr::new(&lex, &mut x).unwrap();
        assert_eq!(x, lex.len() - 1, "{}", src);
        assert!(ordered(&e), "{}", src);
    }
}

#[test]
fn expression_stops_at_the_first_token_out_of_turn() {
    let lex = tokens("a + b c");
    let mut x = 0;
    let e = Expr::new(&lex, &mut x).unwrap();
    assert_eq!(x, 3);
    assert_eq!(e, binary(leaf_name("a"), Operation::Plus, leaf_name("b")));
    let lex = tokens("print ( a ) ");
    let mut x = 2;
    assert_eq!(Expr::new(&lex, &mut x), Some(leaf_name("a")));
    assert_eq!(x, 3);
}

#[test]
fn no_expression_without_a_first_operand() {
    for src in [")", "+ 1", "", "= 1"] {
        let lex = tokens(src);
        let mut x = 0;
        assert_eq!(Expr::new(&lex, &mut x), None, "{}", src);
        assert_eq!(x, 0, "{}", src);
    }
}

#[test]
fn no_expression_with_a_trailing_operator() {
    let lex = tokens("x = a + )");
    let mut x = 2;
    assert_eq!(Expr::new(&lex, &mut x), None);
    assert_eq!(x, 2);
}

#[test]
fn string_literal_is_an_operand() {
    let lex = tokens("\"ab\" == s");
    let mut x = 0;
    assert_eq!(
        Expr::new(&lex, &mut x),
        Some(binary(
            Box::new(Expr::Unary(ExprData::StrLit("ab".to_string()))),
            Operation::Equals,
            leaf_name("s")
        ))
    );
}

#[test]
fn declaration() {
    let lex = tokens("int x = 1 + 2 print(x)");
    let mut x = 0;
    let d = Decl::new(&lex, &mut x).unwrap();
    assert_eq!(x, 6);
    assert_eq!(
        d,
        Decl { ty: Var::Int, name: "x".to_string(), expr: binary(leaf_int(1), Operation::Plus, leaf_int(2)) }
    );
}

#[test]
fn declaration_of_every_type() {
    for (src, ty) in [("int v = 1", Var::Int), ("str v = 1", Var::Str), ("bool v = 1", Var::Bool)] {
        let lex = tokens(src);
        let mut x = 0;
        assert_eq!(Decl::new(&lex, &mut x).unwrap().ty, ty);
    }
}

#[test]
fn malformed_declaration_leaves_the_position() {
    for src in ["x = 1", "int 1 = 1", "int x x", "int x = )", "int x = 1 *", "int"] {
        let lex = tokens(src);
        let mut x = 0;
        assert_eq!(Decl::new(&lex, &mut x), Err(SyntaxError::BadDeclaration), "{}", src);
        assert_eq!(x, 0, "{}", src);
    }
}

#[test]
fn declarations_end_where_no_type_follows() {
    let lex = tokens("int a = 1 str b = a bool c = b print(c)");
    let mut x = 0;
    let ds = Decls::new(&lex, &mut x).unwrap().unwrap();
    assert_eq!(x, 12);
    assert_eq!(ds.decl.name, "a");
    let second = ds.decls.as_ref().unwrap();
    assert_eq!(second.decl.name, "b");
    assert_eq!(second.decl.ty, Var::Str);
    let third = second.decls.as_ref().unwrap();
    assert_eq!(third.decl.name, "c");
    assert!(third.decls.is_none());
}

#[test]
fn no_declarations() {
    let lex = tokens("print(1)");
    let mut x = 0;
    assert_eq!(Decls::new(&lex, &mut x), Ok(None));
    assert_eq!(x, 0);
}

#[test]
fn malformed_declaration_in_a_list() {
    let lex = tokens("int a = 1 int b 2");
    let mut x = 0;
    assert_eq!(Decls::new(&lex, &mut x), Err(SyntaxError::BadDeclaration));
    assert_eq!(x, 0);
}

#[test]
fn print_statement() {
    let lex = tokens("print(a + 1) x");
    let mut x = 0;
    let p = PrintStmt::parse(&lex, &mut x).unwrap();
    assert_eq!(x, 6);
    assert_eq!(*p, PrintStmt { expr: binary(leaf_name("a"), Operation::Plus, leaf_int(1)) });
}

#[test]
fn no_print_statement() {
    for src in ["a = 1", "print a", "print(", "print()", "print(a", "print(a +)"] {
        let lex = tokens(src);
        let mut x = 0;
        assert_eq!(PrintStmt::parse(&lex, &mut x), None, "{}", src);
        assert_eq!(x, 0, "{}", src);
    }
}

#[test]
fn assignment() {
    let lex = tokens("a = a + 41 print(a)");
    let mut x = 0;
    let a = AssignStmt::parse(&lex, &mut x).unwrap();
    assert_eq!(x, 5);
    assert_eq!(
        *a,
        AssignStmt { name: "a".to_string(), expr: binary(leaf_name("a"), Operation::Plus, leaf_int(41)) }
    );
}

#[test]
fn no_assignment() {
    for src in ["print(a)", "a 1", "a =", "a == 1", "1 = a"] {
        let lex = tokens(src);
        let mut x = 0;
        assert_eq!(AssignStmt::parse(&lex, &mut x), None, "{}", src);
        assert_eq!(x, 0, "{}", src);
    }
}

#[test]
fn control_statement() {
    let lex = tokens("while (n > 0) { int t = n print(t) n = t } print(n)");
    let mut x = 0;
    let c = ControlStmt::parse(&lex, &mut x).unwrap().unwrap();
    assert_eq!(x, 19);
    assert_eq!(c.control_type, ControlType::While);
    assert_eq!(c.bool, binary(leaf_name("n"), Operation::GT, leaf_int(0)));
    assert_eq!(c.decls.as_ref().unwrap().decl.name, "t");
    let body = c.stmts.as_ref().unwrap();
    assert!(matches!(body.stmt, StmtType::Print(_)));
    assert!(matches!(body.stmts.as_ref().unwrap().stmt, StmtType::Assign(_)));
}

#[test]
fn control_statement_with_empty_body() {
    let lex = tokens("if (1) { }");
    let mut x = 0;
    let c = ControlStmt::parse(&lex, &mut x).unwrap().unwrap();
    assert_eq!(x, 6);
    assert_eq!(c.control_type, ControlType::If);
    assert!(c.decls.is_none());
    assert!(c.stmts.is_none());
}

#[test]
fn no_control_statement() {
    for src in [
        "print(1)",
        "if 1 { }",
        "if () { }",
        "if (1 { }",
        "if (1) }",
        "if (1) { print(1)",
        "while (1) { print(1) int x = 1 }",
    ] {
        let lex = tokens(src);
        let mut x = 0;
        assert_eq!(ControlStmt::parse(&lex, &mut x), Ok(None), "{}", src);
        assert_eq!(x, 0, "{}", src);
    }
}

#[test]
fn malformed_declaration_in_a_body_is_an_error() {
    let lex = tokens("if (1) { int = 1 }");
    let mut x = 0;
    assert_eq!(ControlStmt::parse(&lex, &mut x), Err(SyntaxError::BadDeclaration));
    assert_eq!(x, 0);
    let mut x = 0;
    assert_eq!(parse_stmt(&lex, &mut x), Err(SyntaxError::BadDeclaration));
    assert_eq!(x, 0);
    let mut x = 0;
    assert_eq!(Stmts::new(&lex, &mut x), Err(SyntaxError::BadDeclaration));
    assert_eq!(x, 0);
}

#[test]
fn statement_forms_are_told_apart() {
    let lex = tokens("print(1) if (1) { } a = 1 int");
    let mut x = 0;
    assert!(matches!(parse_stmt(&lex, &mut x), Ok(Some(StmtType::Print(_)))));
    assert_eq!(x, 4);
    assert!(matches!(parse_stmt(&lex, &mut x), Ok(Some(StmtType::Control(_)))));
    assert_eq!(x, 10);
    assert!(matches!(parse_stmt(&lex, &mut x), Ok(Some(StmtType::Assign(_)))));
    assert_eq!(x, 13);
    assert_eq!(parse_stmt(&lex, &mut x), Ok(None));
    assert_eq!(x, 13);
}

#[test]
fn statements_end_where_none_follows() {
    let lex = tokens("a = 1 print(a) }");
    let mut x = 0;
    let ss = Stmts::new(&lex, &mut x).unwrap().unwrap();
    assert_eq!(x, 7);
    assert!(matches!(ss.stmt, StmtType::Assign(_)));
    let rest = ss.stmts.as_ref().unwrap();
    assert!(matches!(rest.stmt, StmtType::Print(_)));
    assert!(rest.stmts.is_none());
    let mut x = 7;
    assert_eq!(Stmts::new(&lex, &mut x), Ok(None));
    assert_eq!(x, 7);
}

#[test]
fn program_with_both_blocks() {
    let lex = tokens("int x = 5 if (x > 3) { print(x) }");
    let mut x = 0;
    let p = Program::new(&lex, &mut x).unwrap();
    assert_eq!(x, lex.len() - 1);
    assert_eq!(p.decls.as_ref().unwrap().decl.name, "x");
    assert!(matches!(p.stmts.as_ref().unwrap().stmt, StmtType::Control(_)));
}

#[test]
fn program_without_blocks() {
    let lex = tokens("");
    let mut x = 0;
    assert_eq!(Program::new(&lex, &mut x), Ok(Program { decls: None, stmts: None }));
    assert_eq!(x, 0);
}

#[test]
fn program_must_end_at_the_end_of_input() {
    for src in ["print(1) int x = 1", "x = 1 )", "print(1", ";", "if (1) { } }"] {
        let lex = tokens(src);
        let mut x = 0;
        assert_eq!(Program::new(&lex, &mut x), Err(SyntaxError::UnexpectedToken), "{}", src);
        assert_eq!(x, 0, "{}", src);
    }
}

#[test]
fn program_with_a_malformed_declaration() {
    let lex = tokens("int x = 1 int y");
    let mut x = 0;
    assert_eq!(Program::new(&lex, &mut x), Err(SyntaxError::BadDeclaration));
    assert_eq!(x, 0);
}

/// The tokens that an expression is written with.
fn expr_tokens(e: &Expr, out: &mut Vec<Token>) {
    match e {
        Expr::Unary(ExprData::StrLit(s)) => out.push(Token::StringLit(s.clone())),
        Expr::Unary(ExprData::IntLit(n)) => out.push(Token::IntLit(*n)),
        Expr::Unary(ExprData::Name(s)) => out.push(Token::Name(s.clone())),
        Expr::Binary(l, r, op) => {
            expr_tokens(l, out);
            out.push(match op {
                Operation::Equals => Token::Equals,
                Operation::Times => Token::Times,
                Operation::Plus => Token::Plus,
                Operation::GT => Token::GT,
                Operation::LT => Token::LT,
            });
            expr_tokens(r, out);
        }
    }
}

/// The tokens that declarations are written with.
fn decls_tokens(decls: &Option<Box<Decls>>, out: &mut Vec<Token>) {
    let mut next = decls;
    while let Some(ds) = next {
        out.push(match ds.decl.ty {
            Var::Int => Token::Int,
            Var::Str => Token::Str,
            Var::Bool => Token::Bool,
        });
        out.push(Token::Name(ds.decl.name.clone()));
        out.push(Token::Assign);
        expr_tokens(&ds.decl.expr, out);
        next = &ds.decls;
    }
}

/// The tokens that statements are written with.
fn stmts_tokens(stmts: &Option<Box<Stmts>>, out: &mut Vec<Token>) {
    let mut next = stmts;
    while let Some(ss) = next {
        match &ss.stmt {
            StmtType::Print(p) => {
                out.push(Token::Print);
                out.push(Token::OpenParen);
                expr_tokens(&p.expr, out);
                out.push(Token::CloseParen);
            }
            StmtType::Assign(a) => {
                out.push(Token::Name(a.name.clone()));
                out.push(Token::Assign);
                expr_tokens(&a.expr, out);
            }
            StmtType::Control(c) => {
                out.push(match c.control_type {
                    ControlType::If => Token::If,
                    ControlType::While => Token::While,
                });
                out.push(Token::OpenParen);
                expr_tokens(&c.bool, out);
                out.push(Token::CloseParen);
                out.push(Token::OpenBrace);
                decls_tokens(&c.decls, out);
                stmts_tokens(&c.stmts, out);
                out.push(Token::CloseBrace);
            }
        }
        next = &ss.stmts;
    }
}

#[test]
fn tokens_of_a_parsed_program_parse_to_the_same_program() {
    for src in [
        "",
        "int x = 1",
        "print(1 + 2 * 3 == 7)",
        "int a = 0 int b = 1 int n = 0 while (n < 10) { int t = a + b print(a) a = b b = t n = n + 1 }",
        "str s = \"a\" bool b = s == \"a\" if (b) { while (b) { print(s) } } x = y",
        "if (a > b + c * d) { } while (1) { if (2) { int z = 3 } }",
    ] {
        let first = tokens(src);
        let mut x = 0;
        let program = Program::new(&first, &mut x).unwrap();
        let mut again = Vec::new();
        decls_tokens(&program.decls, &mut again);
        stmts_tokens(&program.stmts, &mut again);
        again.push(Token::EOF);
        assert_eq!(again, first, "{}", src);
        let mut y = 0;
        assert_eq!(Program::new(&again, &mut y), Ok(program), "{}", src);
        assert_eq!(y, again.len() - 1, "{}", src);
    }
}

#[test]
fn no_declarations_at_or_past_the_end() {
    let lex = tokens("int x = 1");
    for start in [lex.len(), lex.len() + 1, usize::MAX] {
        let mut x = start;
        assert_eq!(Decls::new(&lex, &mut x), Ok(None));
        assert_eq!(x, start);
    }
    let empty: Vec<Token> = Vec::new();
    let mut x = 0;
    assert_eq!(Decls::new(&empty, &mut x), Ok(None));
    assert_eq!(x, 0);
    let mut x = lex.len() - 1;
    assert_eq!(Decls::new(&lex, &mut x), Ok(None));
    assert_eq!(x, lex.len() - 1);
}
