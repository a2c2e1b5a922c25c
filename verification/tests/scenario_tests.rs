use minilang::code_gen::ir::{Function, Inst, Predicate, Value};
use minilang::code_gen::CodeGenError;
use minilang::driver::{compile_source, CompileError};
use minilang::lexer::{LexError, Lexer};
use minilang::parser::SyntaxError;
use std::collections::HashMap;

/// Runs a lowered function and gives what it prints.
fn execute(f: &Function) -> Vec<i16> {
    let mut blocks: Vec<Vec<(usize, Inst)>> = vec![Vec::new(); f.blocks.len()];
    for (id, step) in f.code.iter().enumerate() {
        blocks[step.block].push((id, step.inst));
    }
    let mut temps: HashMap<usize, i16> = HashMap::new();
    let mut slots: HashMap<usize, i16> = HashMap::new();
    let mut out = Vec::new();
    let mut block = 0;
    let mut pc = 0;
    let mut fuel = 100_000;
    loop {
        assert!(fuel > 0, "the program does not stop");
        fuel -= 1;
        let (id, inst) = blocks[block][pc];
        pc += 1;
        let val = |v: Value, temps: &HashMap<usize, i16>| match v {
            Value::Const(c) => c,
            Value::Temp(t) => temps[&t],
        };
        match inst {
            Inst::Alloca => {
                slots.insert(id, 0);
            }
            Inst::Store { slot, value } => {
                assert!(slots.contains_key(&slot), "store to a slot that was not reserved");
                let v = val(value, &temps);
                slots.insert(slot, v);
            }
            Inst::Load { slot } => {
                temps.insert(id, slots[&slot]);
            }
            Inst::Add { left, right } => {
                temps.insert(id, val(left, &temps).wrapping_add(val(right, &temps)));
            }
            Inst::Mul { left, right } => {
                temps.insert(id, val(left, &temps).wrapping_mul(val(right, &temps)));
            }
            Inst::Compare { pred, left, right } => {
                let (l, r) = (val(left, &temps), val(right, &temps));
                let b = match pred {
                    Predicate::Equal => l == r,
                    Predicate::NotEqual => l != r,
                    Predicate::Greater => l > r,
                    Predicate::Less => l < r,
                };
                temps.insert(id, b as i16);
            }
            Inst::Extend { value } => {
                temps.insert(id, val(value, &temps));
            }
            Inst::Call { value } => out.push(val(value, &temps)),
            Inst::Br { target } => {
                block = target;
                pc = 0;
            }
            Inst::CondBr { cond, then_to, else_to } => {
                block = if val(cond, &temps) != 0 { then_to } else { else_to };
                pc = 0;
            }
            Inst::Ret => return out,
        }
    }
}

fn run(src: &str) -> Result<Vec<i16>, CompileError> {
    let lexer = Lexer::new().unwrap();
    let (_, function) = compile_source(&lexer, src.to_string())?;
    Ok(execute(&function))
}

#[test]
fn scenario_arithmetic() {
    assert_eq!(run("int x = 2 + 3 * 4 print(x)"), Ok(vec![14]));
}

#[test]
fn scenario_assignment_and_reprint() {
    assert_eq!(run("int a = 1 a = a + 41 print(a)"), Ok(vec![42]));
}

#[test]
fn scenario_if_taken() {
    assert_eq!(run("int x = 5 if (x > 3) { print(x) }"), Ok(vec![5]));
}

#[test]
fn scenario_if_not_taken() {
    assert_eq!(run("int x = 1 if (x > 3) { print(x) } print(x)"), Ok(vec![1]));
}

#[test]
fn scenario_while() {
    assert_eq!(run("int i = 0 while (i < 3) { print(i) i = i + 1 }"), Ok(vec![0, 1, 2]));
}

#[test]
fn while_body_runs_before_the_first_test() {
    assert_eq!(run("int i = 7 while (i < 3) { print(i) i = i + 1 }"), Ok(vec![7]));
}

#[test]
fn scenario_fibonacci_as_written_has_a_stray_minus() {
    let src = "int a = 0 int b = 1 int n = 10 while (n > 0) { print(a) int t = a + b a = b b = t n = n + -1 }";
    assert_eq!(run(src), Err(CompileError::Lex(LexError::Unrecognized)));
}

#[test]
fn scenario_fibonacci_counting_up() {
    let src = "int a = 0 int b = 1 int n = 0 while (n < 10) { int t = a + b print(a) a = b b = t n = n + 1 }";
    assert_eq!(run(src), Ok(vec![0, 1, 1, 2, 3, 5, 8, 13, 21, 34]));
}

#[test]
fn statement_before_declaration_in_a_block_is_a_syntax_error() {
    let src = "int a = 0 while (a < 3) { print(a) int t = a + 1 a = t }";
    assert_eq!(run(src), Err(CompileError::Syntax(SyntaxError::UnexpectedToken)));
}

#[test]
fn comparison_operands_keep_their_order() {
    assert_eq!(run("print(2 > 1) print(1 > 2) print(1 < 2) print(2 < 1)"), Ok(vec![1, 0, 1, 0]));
    assert_eq!(run("print(3 == 3) print(3 == 4)"), Ok(vec![1, 0]));
}

#[test]
fn comparison_binds_looser_than_arithmetic() {
    assert_eq!(run("print(1 + 2 * 3 == 7) print(2 * 3 + 1 > 6 + 1)"), Ok(vec![1, 0]));
}

#[test]
fn declaration_in_a_block_stays_visible() {
    assert_eq!(run("int c = 1 while (c > 1) { int y = 9 } print(y)"), Ok(vec![9]));
}

#[test]
fn nested_control() {
    let src = "int i = 0 while (i < 3) { if (i == 1) { print(100) } print(i) i = i + 1 }";
    assert_eq!(run(src), Ok(vec![0, 100, 1, 2]));
}

#[test]
fn empty_program() {
    assert_eq!(run(""), Ok(vec![]));
}

#[test]
fn missing_symbol() {
    assert_eq!(run("print(x)"), Err(CompileError::CodeGen(CodeGenError::MissingSymbol)));
    assert_eq!(run("x = 1"), Err(CompileError::CodeGen(CodeGenError::MissingSymbol)));
    assert_eq!(run("int x = x"), Err(CompileError::CodeGen(CodeGenError::MissingSymbol)));
}

#[test]
fn strings_and_booleans_parse_but_do_not_lower() {
    assert_eq!(run("str s = \"a\""), Err(CompileError::CodeGen(CodeGenError::Unimplemented)));
    assert_eq!(run("bool b = 1"), Err(CompileError::CodeGen(CodeGenError::Unimplemented)));
    assert_eq!(run("print(\"a\")"), Err(CompileError::CodeGen(CodeGenError::Unimplemented)));
}

#[test]
fn malformed_declaration() {
    assert_eq!(run("int = 1"), Err(CompileError::Syntax(SyntaxError::BadDeclaration)));
    assert_eq!(run("int x 1"), Err(CompileError::Syntax(SyntaxError::BadDeclaration)));
    assert_eq!(run("int x ="), Err(CompileError::Syntax(SyntaxError::BadDeclaration)));
    assert_eq!(run("int x = 1 +"), Err(CompileError::Syntax(SyntaxError::BadDeclaration)));
}

#[test]
fn unbalanced_statement() {
    assert_eq!(run("print(1"), Err(CompileError::Syntax(SyntaxError::UnexpectedToken)));
    assert_eq!(run("if (1) { print(1)"), Err(CompileError::Syntax(SyntaxError::UnexpectedToken)));
    assert_eq!(run("print()"), Err(CompileError::Syntax(SyntaxError::UnexpectedToken)));
}

#[test]
fn diagnostics_name_the_stage() {
    assert_eq!(CompileError::Lex(LexError::BadNumber).diagnostic(), "lexical error");
    assert_eq!(CompileError::Syntax(SyntaxError::BadDeclaration).diagnostic(), "syntax error");
    assert_eq!(CompileError::CodeGen(CodeGenError::MissingSymbol).diagnostic(), "code generation error");
}
