use minilang::driver::parse_source;
use minilang::lexer::Lexer;
use minilang::parser::expr::{Expr, ExprData, Operation};
use minilang::parser::stmts::{AssignStmt, PrintStmt};
use minilang::parser::var::Var;
use minilang::text::int_to_string;

fn print(src: &str) -> String {
    let lexer = Lexer::new().unwrap();
    parse_source(&lexer, src.to_string()).unwrap().to_string()
}

#[test]
fn empty_program_text() {
    assert_eq!(print(""), "Program {\n\n}");
}

#[test]
fn declaration_and_statement_text() {
    assert_eq!(
        print("int x = 2 + 3 * 4 print(x)"),
        "Program {\nint x = (2 + (3 * 4))\nprint(x)\n\n}"
    );
}

#[test]
fn every_item_but_the_last_adds_a_line_break_at_the_end() {
    assert_eq!(
        print("int a = 0 int b = 1 int c = 2"),
        "Program {\nint a = 0\nint b = 1\nint c = 2\n\n\n\n}"
    );
    assert_eq!(print("a = 1 print(a)"), "Program {\nassign a = 1\nprint(a)\n\n\n}");
}

#[test]
fn control_statement_text() {
    assert_eq!(
        print("if (x > 3) { int y = x print(y) }"),
        "Program {\nif((x > 3)){int y = x\nprint(y)\n}\n\n}"
    );
    assert_eq!(print("while (1) { }"), "Program {\nwhile(1){}\n\n}");
}

#[test]
fn types_and_operators_text() {
    assert_eq!(Var::Int.to_string(), "int");
    assert_eq!(Var::Str.to_string(), "str");
    assert_eq!(Var::Bool.to_string(), "bool");
    assert_eq!(Operation::Equals.to_string(), "==");
    assert_eq!(Operation::Times.to_string(), "*");
    assert_eq!(Operation::Plus.to_string(), "+");
    assert_eq!(Operation::GT.to_string(), ">");
    assert_eq!(Operation::LT.to_string(), "<");
}

#[test]
fn leaves_print_what_they_hold() {
    assert_eq!(ExprData::IntLit(42).to_string(), "42");
    assert_eq!(ExprData::IntLit(-7).to_string(), "-7");
    assert_eq!(ExprData::Name("abc".to_string()).to_string(), "abc");
    assert_eq!(ExprData::StrLit("hello".to_string()).to_string(), "hello");
}

#[test]
fn binary_expression_text() {
    let e = Expr::Binary(
        Box::new(Expr::Unary(ExprData::Name("a".to_string()))),
        Box::new(Expr::Binary(
            Box::new(Expr::Unary(ExprData::IntLit(1))),
            Box::new(Expr::Unary(ExprData::IntLit(2))),
            Operation::LT,
        )),
        Operation::Equals,
    );
    assert_eq!(e.to_string(), "(a == (1 < 2))");
}

#[test]
fn simple_statement_text() {
    let e = || Box::new(Expr::Unary(ExprData::IntLit(3)));
    assert_eq!(PrintStmt { expr: e() }.to_string(), "print(3)");
    assert_eq!(AssignStmt { name: "n".to_string(), expr: e() }.to_string(), "assign n = 3");
}

#[test]
fn numbers_in_decimal() {
    assert_eq!(int_to_string(0), "0");
    assert_eq!(int_to_string(9), "9");
    assert_eq!(int_to_string(10), "10");
    assert_eq!(int_to_string(32767), "32767");
    assert_eq!(int_to_string(-1), "-1");
    assert_eq!(int_to_string(-32768), "-32768");
    for n in [-32768i16, -1000, -1, 0, 1, 99, 100, 12345, 32767] {
        assert_eq!(int_to_string(n), format!("{}", n));
    }
}

#[test]
fn printed_text_is_not_a_program() {
    // The canonical text starts with `Program {` and uses `assign` and
    // parentheses, none of which the grammar has.
    let lexer = Lexer::new().unwrap();
    for src in ["", "int x = 1", "int x = 1 x = x + 1 print(x)"] {
        let text = print(src);
        assert!(parse_source(&lexer, text).is_err(), "{}", src);
    }
}

#[test]
fn white_space_between_tokens_changes_nothing() {
    let spaced = "int   x=2+3*4\n\n\tif(x>3){print(x)}\r\n";
    let plain = "int x = 2 + 3 * 4 if (x > 3) { print(x) }";
    assert_eq!(print(spaced), print(plain));
    assert_eq!(print("a=1   print ( a )"), print("a = 1 print(a)"));
}
