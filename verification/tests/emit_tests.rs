use inkwell::context::Context;
use inkwell::passes::PassManager;
use minilang::code_gen::emit::{conclude, constant_bits, BuildError, Compiler};
use minilang::code_gen::CodeGenError;
use minilang::driver::parse_source;
use minilang::lexer::Lexer;

/// Builds `src` in a fresh module and gives the text of the module.
fn build(src: &str, with_runtime: bool) -> Result<String, BuildError> {
    let lexer = Lexer::new().unwrap();
    let program = parse_source(&lexer, src.to_string()).unwrap();
    let context = Context::create();
    let builder = context.create_builder();
    let module = context.create_module("main");
    let fpm = PassManager::create(&module);
    fpm.initialize();
    if with_runtime {
        let int_type = context.i16_type();
        let fn_type = context.void_type().fn_type(&[int_type.into()], false);
        module.add_function("print_int", fn_type, None);
    }
    Compiler::compile(&context, &builder, &module, &fpm, &program)?;
    Ok(module.print_to_string().to_string())
}

#[test]
fn builds_a_declaration_and_a_print() {
    let text = build("int x = 5 print(x)", true).unwrap();
    assert!(text.contains("define void @main()"), "{}", text);
    assert!(text.contains("entry:"), "{}", text);
    assert!(text.contains("%x = alloca i16"), "{}", text);
    assert!(text.contains("store i16 5, i16* %x"), "{}", text);
    assert!(text.contains("= load i16, i16* %x"), "{}", text);
    assert!(text.contains("call void @print_int(i16 %"), "{}", text);
    assert!(text.contains("ret void"), "{}", text);
}

#[test]
fn builds_sum_and_comparison() {
    let text = build("int a = 1 int b = a + a print(b > a)", true).unwrap();
    assert!(text.contains("add i16"), "{}", text);
    assert!(text.contains("icmp sgt i16"), "{}", text);
    assert!(text.contains("%cast = zext i1 %"), "{}", text);
}

#[test]
fn builds_the_blocks_of_an_if() {
    let text = build("int x = 5 if (x > 3) { print(x) }", true).unwrap();
    assert!(text.contains("icmp ne i16"), "{}", text);
    assert!(text.contains("br i1 %if, label %then, label %else"), "{}", text);
    let then_at = text.find("\nthen:").unwrap();
    let else_at = text.find("\nelse:").unwrap();
    let cont_at = text.find("\ncont:").unwrap();
    assert!(then_at < else_at && else_at < cont_at, "{}", text);
    assert_eq!(text.matches("br label %cont").count(), 2, "{}", text);
}

#[test]
fn builds_the_blocks_of_a_while() {
    let text = build("int i = 0 while (i < 3) { print(i) i = i + 1 }", true).unwrap();
    assert!(text.contains("br label %\"loop body\""), "{}", text);
    assert!(text.contains("icmp eq i16"), "{}", text);
    assert!(text.contains("label %afterloop, label %\"loop body\""), "{}", text);
    assert!(text.contains("mul i16") == false, "{}", text);
}

#[test]
fn empty_program_is_a_return() {
    let text = build("", false).unwrap();
    assert!(text.contains("entry:\n  ret void"), "{}", text);
}

#[test]
fn lowering_error_comes_first() {
    assert_eq!(build("print(x)", false), Err(BuildError::CodeGen(CodeGenError::MissingSymbol)));
    assert_eq!(build("str s = \"a\"", true), Err(BuildError::CodeGen(CodeGenError::Unimplemented)));
}

#[test]
fn print_needs_the_runtime() {
    assert_eq!(build("print(1)", false), Err(BuildError::MissingRuntime));
}

#[test]
fn slot_reserved_in_a_branch_does_not_reach_what_follows() {
    assert_eq!(
        build("int c = 1 if (c > 0) { int y = 2 } print(y)", true),
        Err(BuildError::Verifier)
    );
}

#[test]
fn slot_reserved_in_a_loop_reaches_what_follows() {
    assert!(build("int c = 1 while (c > 1) { int y = 2 } print(y)", true).is_ok());
}

#[test]
fn verdict_of_the_verifier_decides() {
    assert_eq!(conclude(true), Ok(()));
    assert_eq!(conclude(false), Err(BuildError::Verifier));
}

#[test]
fn constants_are_sixteen_bit_patterns() {
    assert_eq!(constant_bits(0), 0);
    assert_eq!(constant_bits(5), 5);
    assert_eq!(constant_bits(32767), 32767);
    assert_eq!(constant_bits(-1), 65535);
    assert_eq!(constant_bits(-32768), 32768);
}

#[test]
fn programs_that_keep_to_their_blocks_pass_the_verifier() {
    for src in [
        "int x = 1 print(x)",
        "int x = 1 if (x > 0) { int y = x print(y) } print(x)",
        "int x = 1 while (x < 5) { int y = x + 1 x = y } print(y)",
        "int i = 0 while (i < 3) { if (i == 1) { int z = i print(z) } print(i) i = i + 1 }",
        "if (1) { while (0) { int a = 1 } print(a) }",
        "while (b < 2) { int b = 5 }",
    ] {
        assert!(build(src, true).is_ok(), "{}", src);
    }
}

#[test]
fn use_after_a_branch_that_declares_is_refused_by_the_verifier() {
    for src in [
        "if (1) { int y = 2 } print(y)",
        "int y = 1 if (1) { int y = 2 } print(y)",
        "if (1) { if (1) { int y = 2 } y = 3 }",
        "if (1) { while (0) { int y = 2 } } print(y)",
    ] {
        assert_eq!(build(src, true), Err(BuildError::Verifier), "{}", src);
    }
}
