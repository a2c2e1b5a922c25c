use minilang::code_gen::compile::Lowering;
use minilang::code_gen::ir::{Function, Inst, Label, Predicate, Step, Value};
use minilang::code_gen::passes::{pipeline, Pass};
use minilang::code_gen::symbols::SymbolTable;
use minilang::code_gen::CodeGenError;
use minilang::driver::parse_source;
use minilang::lexer::Lexer;
use minilang::parser::expr::{Expr, ExprData, Operation};
use minilang::parser::decls::Decl;
use minilang::parser::stmts::{AssignStmt, PrintStmt};
use minilang::parser::var::Var;

fn lower(src: &str) -> Result<Function, CodeGenError> {
    let lexer = Lexer::new().unwrap();
    let program = parse_source(&lexer, src.to_string()).unwrap();
    Lowering::compile_program(&program)
}

fn step(block: usize, inst: Inst, name: &str) -> Step {
    Step { block, inst, name: name.to_string() }
}

fn is_terminator(inst: &Inst) -> bool {
    matches!(inst, Inst::Br { .. } | Inst::CondBr { .. } | Inst::Ret)
}

/// Every block has exactly one terminator, and it is the last step of the
/// block.
fn blocks_are_closed(f: &Function) -> bool {
    (0..f.blocks.len()).all(|b| {
        let steps: Vec<&Step> = f.code.iter().filter(|s| s.block == b).collect();
        !steps.is_empty()
            && is_terminator(&steps[steps.len() - 1].inst)
            && steps[..steps.len() - 1].iter().all(|s| !is_terminator(&s.inst))
    })
}

/// Every slot that is read or written was reserved by an earlier step.
fn slots_are_reserved_first(f: &Function) -> bool {
    f.code.iter().enumerate().all(|(t, s)| match s.inst {
        Inst::Load { slot } | Inst::Store { slot, .. } => {
            slot < t && f.code[slot].inst == Inst::Alloca
        }
        _ => true,
    })
}

#[test]
fn empty_program_is_one_block_with_a_return() {
    assert_eq!(
        lower(""),
        Ok(Function { blocks: vec![Label::Entry], code: vec![step(0, Inst::Ret, "")] })
    );
}

#[test]
fn declaration_reserves_then_stores() {
    assert_eq!(
        lower("int x = 5"),
        Ok(Function {
            blocks: vec![Label::Entry],
            code: vec![
                step(0, Inst::Alloca, "x"),
                step(0, Inst::Store { slot: 0, value: Value::Const(5) }, ""),
                step(0, Inst::Ret, ""),
            ],
        })
    );
}

#[test]
fn name_is_a_load_and_print_is_a_call() {
    assert_eq!(
        lower("int x = 5 print(x)").unwrap().code,
        vec![
            step(0, Inst::Alloca, "x"),
            step(0, Inst::Store { slot: 0, value: Value::Const(5) }, ""),
            step(0, Inst::Load { slot: 0 }, "x"),
            step(0, Inst::Call { value: Value::Temp(2) }, "tmp"),
            step(0, Inst::Ret, ""),
        ]
    );
}

#[test]
fn operators_take_the_left_operand_first() {
    assert_eq!(
        lower("print(1 + 2 * 3)").unwrap().code,
        vec![
            step(0, Inst::Mul { left: Value::Const(2), right: Value::Const(3) }, "tmp"),
            step(0, Inst::Add { left: Value::Const(1), right: Value::Temp(0) }, "tmp"),
            step(0, Inst::Call { value: Value::Temp(1) }, "tmp"),
            step(0, Inst::Ret, ""),
        ]
    );
}

#[test]
fn comparisons_are_extended_to_integers() {
    for (src, pred) in [
        ("print(1 == 2)", Predicate::Equal),
        ("print(1 > 2)", Predicate::Greater),
        ("print(1 < 2)", Predicate::Less),
    ] {
        assert_eq!(
            lower(src).unwrap().code,
            vec![
                step(0, Inst::Compare { pred, left: Value::Const(1), right: Value::Const(2) }, "tmp"),
                step(0, Inst::Extend { value: Value::Temp(0) }, "cast"),
                step(0, Inst::Call { value: Value::Temp(1) }, "tmp"),
                step(0, Inst::Ret, ""),
            ],
            "{}",
            src
        );
    }
}

#[test]
fn assignment_stores_to_the_slot_of_the_name() {
    assert_eq!(
        lower("int a = 1 int b = 2 a = b").unwrap().code,
        vec![
            step(0, Inst::Alloca, "a"),
            step(0, Inst::Store { slot: 0, value: Value::Const(1) }, ""),
            step(0, Inst::Alloca, "b"),
            step(0, Inst::Store { slot: 2, value: Value::Const(2) }, ""),
            step(0, Inst::Load { slot: 2 }, "b"),
            step(0, Inst::Store { slot: 0, value: Value::Temp(4) }, ""),
            step(0, Inst::Ret, ""),
        ]
    );
}

#[test]
fn later_declaration_of_a_name_takes_over() {
    assert_eq!(
        lower("int a = 1 int a = 2 print(a)").unwrap().code[4],
        step(0, Inst::Load { slot: 2 }, "a")
    );
}

#[test]
fn if_has_three_blocks() {
    let f = lower("if (7) { print(1) } print(2)").unwrap();
    assert_eq!(f.blocks, vec![Label::Entry, Label::Then, Label::Else, Label::Cont]);
    assert_eq!(
        f.code,
        vec![
            step(
                0,
                Inst::Compare { pred: Predicate::NotEqual, left: Value::Const(7), right: Value::Const(0) },
                "if"
            ),
            step(0, Inst::CondBr { cond: Value::Temp(0), then_to: 1, else_to: 2 }, ""),
            step(1, Inst::Call { value: Value::Const(1) }, "tmp"),
            step(1, Inst::Br { target: 3 }, ""),
            step(2, Inst::Br { target: 3 }, ""),
            step(3, Inst::Call { value: Value::Const(2) }, "tmp"),
            step(3, Inst::Ret, ""),
        ]
    );
}

#[test]
fn while_tests_at_the_bottom() {
    let f = lower("while (7) { print(1) } print(2)").unwrap();
    assert_eq!(f.blocks, vec![Label::Entry, Label::LoopBody, Label::AfterLoop]);
    assert_eq!(
        f.code,
        vec![
            step(0, Inst::Br { target: 1 }, ""),
            step(1, Inst::Call { value: Value::Const(1) }, "tmp"),
            step(
                1,
                Inst::Compare { pred: Predicate::Equal, left: Value::Const(7), right: Value::Const(0) },
                "if"
            ),
            step(1, Inst::CondBr { cond: Value::Temp(2), then_to: 2, else_to: 1 }, ""),
            step(2, Inst::Call { value: Value::Const(2) }, "tmp"),
            step(2, Inst::Ret, ""),
        ]
    );
}

#[test]
fn while_condition_may_use_what_the_body_declares() {
    assert!(lower("while (y < 3) { int y = 5 }").is_ok());
    assert_eq!(lower("if (y < 3) { int y = 5 }"), Err(CodeGenError::MissingSymbol));
}

#[test]
fn every_block_ends_with_its_one_terminator() {
    for src in [
        "",
        "int x = 1 print(x)",
        "if (1) { }",
        "while (1) { }",
        "int i = 0 while (i < 3) { if (i == 1) { print(100) } print(i) i = i + 1 }",
        "if (1) { if (2) { while (3) { print(4) } } print(5) } print(6)",
        "while (1) { while (2) { if (3) { print(4) } } } if (5) { print(6) }",
    ] {
        let f = lower(src).unwrap();
        assert!(blocks_are_closed(&f), "{}", src);
        assert!(slots_are_reserved_first(&f), "{}", src);
    }
}

#[test]
fn first_error_in_order_is_reported() {
    assert_eq!(lower("int a = x str s = 1"), Err(CodeGenError::MissingSymbol));
    assert_eq!(lower("str s = x"), Err(CodeGenError::Unimplemented));
    assert_eq!(lower("int a = \"s\" + b"), Err(CodeGenError::Unimplemented));
    assert_eq!(lower("int a = b + \"s\""), Err(CodeGenError::MissingSymbol));
    assert_eq!(lower("x = \"s\""), Err(CodeGenError::MissingSymbol));
    assert_eq!(lower("int x = 1 x = \"s\""), Err(CodeGenError::Unimplemented));
    assert_eq!(lower("while (x) { print(\"s\") }"), Err(CodeGenError::Unimplemented));
    assert_eq!(lower("if (x) { print(\"s\") }"), Err(CodeGenError::MissingSymbol));
}

#[test]
fn lowering_step_by_step() {
    let mut lowering = Lowering::new();
    let entry = lowering.append_basic_block(Label::Entry);
    assert_eq!(entry, 0);
    lowering.position_at_end(entry);
    let id = lowering.emit(Inst::Alloca, "v");
    assert_eq!(id, 0);
    lowering.variables.insert("v".to_string(), id);

    let five = Expr::Unary(ExprData::IntLit(5));
    assert_eq!(lowering.compile_expr(&five), Ok(Value::Const(5)));
    let v = Expr::Unary(ExprData::Name("v".to_string()));
    assert_eq!(lowering.compile_expr(&v), Ok(Value::Temp(1)));
    assert_eq!(lowering.compile_binary_expr(&v, &five, Operation::Times), Ok(Value::Temp(3)));
    let w = Expr::Unary(ExprData::Name("w".to_string()));
    assert_eq!(lowering.compile_expr(&w), Err(CodeGenError::MissingSymbol));

    let assign = AssignStmt { name: "v".to_string(), expr: Box::new(Expr::Unary(ExprData::IntLit(6))) };
    assert_eq!(lowering.compile_assign(&assign), Ok(()));
    let print = PrintStmt { expr: Box::new(Expr::Unary(ExprData::IntLit(7))) };
    assert_eq!(lowering.compile_print(&print), Ok(()));
    assert_eq!(
        lowering.code,
        vec![
            step(0, Inst::Alloca, "v"),
            step(0, Inst::Load { slot: 0 }, "v"),
            step(0, Inst::Load { slot: 0 }, "v"),
            step(0, Inst::Mul { left: Value::Temp(2), right: Value::Const(5) }, "tmp"),
            step(0, Inst::Store { slot: 0, value: Value::Const(6) }, ""),
            step(0, Inst::Call { value: Value::Const(7) }, "tmp"),
        ]
    );
}

#[test]
fn block_names() {
    assert_eq!(Label::Entry.name(), "entry");
    assert_eq!(Label::Then.name(), "then");
    assert_eq!(Label::Else.name(), "else");
    assert_eq!(Label::Cont.name(), "cont");
    assert_eq!(Label::LoopBody.name(), "loop body");
    assert_eq!(Label::AfterLoop.name(), "afterloop");
}

#[test]
fn symbol_table_keeps_the_last_binding() {
    let mut table = SymbolTable::new();
    assert_eq!(table.get(&"a".to_string()), None);
    table.insert("a".to_string(), 1);
    table.insert("b".to_string(), 2);
    assert_eq!(table.get(&"a".to_string()), Some(1));
    assert_eq!(table.get(&"b".to_string()), Some(2));
    table.insert("a".to_string(), 3);
    assert_eq!(table.get(&"a".to_string()), Some(3));
    assert_eq!(table.get(&"b".to_string()), Some(2));
    assert_eq!(table.get(&"c".to_string()), None);
}

#[test]
fn passes_in_order() {
    assert_eq!(
        pipeline(),
        vec![
            Pass::InstructionCombining,
            Pass::Reassociate,
            Pass::Gvn,
            Pass::CfgSimplification,
            Pass::BasicAliasAnalysis,
            Pass::PromoteMemoryToRegister,
            Pass::InstructionCombining,
            Pass::Reassociate,
        ]
    );
}

#[test]
fn declaration_without_a_lowering_changes_nothing() {
    for ty in [Var::Str, Var::Bool] {
        let mut lowering = Lowering::new();
        let entry = lowering.append_basic_block(Label::Entry);
        lowering.position_at_end(entry);
        let decl = Decl { ty, name: "b".to_string(), expr: Box::new(Expr::Unary(ExprData::IntLit(1))) };
        assert_eq!(lowering.compile_decl(&decl), Err(CodeGenError::Unimplemented));
        assert_eq!(lowering.blocks, vec![Label::Entry]);
        assert_eq!(lowering.code, vec![]);
        assert_eq!(lowering.current, 0);
        assert_eq!(lowering.variables.get(&"b".to_string()), None);
    }
}

#[test]
fn declaration_whose_initializer_fails_binds_nothing() {
    let mut lowering = Lowering::new();
    let entry = lowering.append_basic_block(Label::Entry);
    lowering.position_at_end(entry);
    let decl = Decl {
        ty: Var::Int,
        name: "x".to_string(),
        expr: Box::new(Expr::Unary(ExprData::Name("x".to_string()))),
    };
    assert_eq!(lowering.compile_decl(&decl), Err(CodeGenError::MissingSymbol));
    assert_eq!(lowering.current, 0);
    assert_eq!(lowering.variables.get(&"x".to_string()), None);
    assert_eq!(lowering.code, vec![step(0, Inst::Alloca, "x")]);
}

#[test]
fn declaration_of_an_integer_binds_its_name_to_a_fresh_slot() {
    let mut lowering = Lowering::new();
    let entry = lowering.append_basic_block(Label::Entry);
    lowering.position_at_end(entry);
    let decl = |n: i16| Decl {
        ty: Var::Int,
        name: "x".to_string(),
        expr: Box::new(Expr::Unary(ExprData::IntLit(n))),
    };
    assert_eq!(lowering.compile_decl(&decl(4)), Ok(()));
    assert_eq!(lowering.variables.get(&"x".to_string()), Some(0));
    assert_eq!(lowering.compile_decl(&decl(5)), Ok(()));
    assert_eq!(lowering.variables.get(&"x".to_string()), Some(2));
    assert_eq!(
        lowering.code,
        vec![
            step(0, Inst::Alloca, "x"),
            step(0, Inst::Store { slot: 0, value: Value::Const(4) }, ""),
            step(0, Inst::Alloca, "x"),
            step(0, Inst::Store { slot: 2, value: Value::Const(5) }, ""),
        ]
    );
}

#[test]
fn function_returns_in_one_place() {
    for src in ["", "print(1)", "if (1) { print(2) }", "while (1) { if (2) { } } print(3)"] {
        let f = lower(src).unwrap();
        let returns: Vec<usize> =
            (0..f.code.len()).filter(|t| f.code[*t].inst == Inst::Ret).collect();
        assert_eq!(returns, vec![f.code.len() - 1], "{}", src);
    }
}
