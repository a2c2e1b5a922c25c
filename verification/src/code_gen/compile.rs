//! The code generator proper: it walks the tree and builds steps.

use crate::code_gen::dominance::{block_scoped, lemma_slots_dominate};
use crate::code_gen::ir::{Function, FunctionView, Inst, Label, Predicate, Step, StepView, Value};
use crate::code_gen::laws::{
    lemma_decl_keeps, lemma_decls_keep, lemma_expr_keeps, lemma_lowered_returns_once,
    lemma_lowered_well_formed, lemma_stmt_keeps, lemma_stmts_keep,
};
use crate::code_gen::lower::{
    lower_decl, lower_decls, lower_expr, lower_program, lower_stmt, lower_stmts, GenView,
};
use crate::code_gen::scope::{
    binds_within, declared_by_decls, declared_by_stmt, declared_by_stmts, lemma_binds_within_twice,
    lemma_decls_bind_within, lemma_stmt_binds_within, lemma_stmts_bind_within,
};
use crate::code_gen::symbols::SymbolTable;
use crate::code_gen::CodeGenError;
use crate::parser::decls::{decls_view, lemma_decls_nonempty, Decl, Decls};
use crate::parser::expr::{Expr, ExprData, ExprView, Operation};
use crate::parser::program::Program;
use crate::parser::stmts::{
    lemma_stmts_nonempty, stmts_view, AssignStmt, ControlStmt, ControlType, PrintStmt, StmtType,
    Stmts,
};
use crate::parser::var::Var;
use vstd::prelude::*;

verus! {

/// The code generator while it works on one function. It only ever adds:
/// when lowering fails, the blocks and the steps built so far are still
/// there. A name is bound only by a declaration that was lowered in full.
pub struct Lowering {
    pub blocks: Vec<Label>,
    pub code: Vec<Step>,
    pub current: usize,
    pub variables: SymbolTable,
}

impl View for Lowering {
    type V = GenView;

    open spec fn view(&self) -> GenView {
        GenView {
            blocks: self.blocks@,
            code: self.code.deep_view(),
            current: self.current,
            vars: self.variables@,
        }
    }
}

/// The number of operators in an expression.
pub open spec fn operators(e: ExprView) -> nat
    decreases e,
{
    match e {
        ExprView::Unary(_) => 0,
        ExprView::Binary(left, right, _) => 1 + operators(*left) + operators(*right),
    }
}

impl Lowering {
    /// A code generator that has built nothing yet.
    pub fn new() -> (r: Lowering)
        ensures
            r@ == GenView::fresh(),
    {
        let r = Lowering {
            blocks: Vec::new(),
            code: Vec::new(),
            current: 0,
            variables: SymbolTable::new(),
        };
        assert(r.code.deep_view() =~= Seq::<StepView>::empty());
        r
    }

    /// Appends `inst` to the current block and gives the number of the step.
    pub fn emit(&mut self, inst: Inst, name: &str) -> (id: usize)
        ensures
            final(self)@ == old(self)@.emit(inst, name@),
            id == old(self)@.next(),
    {
        let id: usize = self.code.len();
        let step = Step { block: self.current, inst, name: name.to_owned() };
        self.code.push(step);
        assert(self.code.deep_view() =~= old(self).code.deep_view().push(step@));
        id
    }

    /// Creates a block after the blocks there are and gives its position.
    pub fn append_basic_block(&mut self, label: Label) -> (id: usize)
        ensures
            final(self)@ == old(self)@.append_block(label),
            id == old(self)@.next_block(),
            id + 1 == final(self).blocks.len(),
    {
        let id: usize = self.blocks.len();
        self.blocks.push(label);
        id
    }

    /// Makes `block` the block that new steps are appended to.
    pub fn position_at_end(&mut self, block: usize)
        ensures
            final(self)@ == old(self)@.position_at_end(block),
    {
        self.current = block;
    }

    /// Lowers a whole program to a function. The function is well formed:
    /// every block of it ends with its one terminator, and no step uses what
    /// was not built before it. It returns in one place, at its last step.
    /// If the program uses every name where its declaration is sure to have
    /// run, then every slot is reserved in a block that dominates the blocks
    /// in which it is read or written.
    pub fn compile_program(program: &Program) -> (r: Result<Function, CodeGenError>)
        ensures
            match lower_program(program@) {
                Ok(function) => r matches Ok(f) && f@ == function,
                Err(e) => r matches Err(f) && f == e,
            },
            r matches Ok(f) ==> f@.well_formed(),
            r matches Ok(f) ==> f@.returns_once(),
            r matches Ok(f) ==> block_scoped(program@) ==> f@.slots_dominate(),
    {
        let mut lowering = Lowering::new();
        let entry = lowering.append_basic_block(Label::Entry);
        lowering.position_at_end(entry);
        match &program.decls {
            Some(decls) => {
                lowering.compile_decls(decls)?;
            },
            None => {},
        }
        match &program.stmts {
            Some(stmts) => {
                lowering.compile_stmts(stmts)?;
            },
            None => {},
        }
        lowering.emit(Inst::Ret, "");
        let function = Function { blocks: lowering.blocks, code: lowering.code };
        proof {
            assert(function@.code.len() == function.code.len());
            assert(function@.blocks.len() == function.blocks.len());
            assert(lower_program(program@) == Ok::<FunctionView, CodeGenError>(function@));
            lemma_lowered_well_formed(program@);
            lemma_lowered_returns_once(program@);
            if block_scoped(program@) {
                lemma_slots_dominate(program@);
            }
        }
        Ok(function)
    }

    /// Lowers the statements of a list, in order.
    pub fn compile_stmts(&mut self, stmts: &Stmts) -> (r: Result<(), CodeGenError>)
        ensures
            match lower_stmts(old(self)@, stmts@) {
                Ok(g) => r is Ok && final(self)@ == g,
                Err(e) => r matches Err(f) && f == e,
            },
            r is Err ==> final(self)@.keeps(old(self)@),
            r is Err ==> binds_within(old(self)@, final(self)@, declared_by_stmts(stmts@)),
        decreases stmts,
    {
        proof {
            lemma_stmts_nonempty(*stmts);
            lemma_stmt_keeps(old(self)@, stmts.stmt@);
            lemma_stmt_binds_within(old(self)@, stmts.stmt@);
        }
        match &stmts.stmt {
            StmtType::Control(control) => self.compile_control(control)?,
            StmtType::Print(print) => self.compile_print(print)?,
            StmtType::Assign(assign) => self.compile_assign(assign)?,
        }
        match &stmts.stmts {
            Some(next) => self.compile_stmts(next),
            None => {
                assert(lower_stmts(self@, stmts@.drop_first()) == Ok::<GenView, CodeGenError>(self@));
                Ok(())
            },
        }
    }

    /// Lowers an assignment.
    pub fn compile_assign(&mut self, stmt: &AssignStmt) -> (r: Result<(), CodeGenError>)
        ensures
            match lower_stmt(old(self)@, stmt@) {
                Ok(g) => r is Ok && final(self)@ == g,
                Err(e) => r matches Err(f) && f == e,
            },
            r is Err ==> final(self)@.keeps(old(self)@),
            r is Err ==> final(self)@.vars == old(self)@.vars && final(self)@.current
                == old(self)@.current,
    {
        let slot = match self.variables.get(&stmt.name) {
            Some(slot) => slot,
            None => {
                return Err(CodeGenError::MissingSymbol);
            },
        };
        let value = self.compile_expr(&stmt.expr)?;
        self.emit(Inst::Store { slot, value }, "");
        Ok(())
    }

    /// Lowers an `if` or a `while`.
    pub fn compile_control(&mut self, stmt: &ControlStmt) -> (r: Result<(), CodeGenError>)
        ensures
            match lower_stmt(old(self)@, stmt@) {
                Ok(g) => r is Ok && final(self)@ == g,
                Err(e) => r matches Err(f) && f == e,
            },
            r is Err ==> final(self)@.keeps(old(self)@),
            r is Err ==> binds_within(old(self)@, final(self)@, declared_by_stmt(stmt@)),
        decreases stmt,
    {
        let ghost by_decls = declared_by_decls(decls_view(stmt.decls));
        let ghost by_stmts = declared_by_stmts(stmts_view(stmt.stmts));
        assert(declared_by_stmt(stmt@) == by_decls.union(by_stmts));
        match stmt.control_type {
            ControlType::If => {
                proof {
                    lemma_expr_keeps(old(self)@, stmt.bool@);
                }
                let value = self.compile_expr(&stmt.bool)?;
                let cond = self.emit(
                    Inst::Compare { pred: Predicate::NotEqual, left: value, right: Value::Const(0) },
                    "if",
                );
                let then_bb = self.append_basic_block(Label::Then);
                let else_bb = self.append_basic_block(Label::Else);
                let cont_bb = self.append_basic_block(Label::Cont);
                self.emit(
                    Inst::CondBr { cond: Value::Temp(cond), then_to: then_bb, else_to: else_bb },
                    "",
                );
                self.position_at_end(then_bb);
                let ghost branched = self@;
                assert(branched.keeps(old(self)@));
                assert(branched.vars == old(self)@.vars);
                if let Some(decls) = &stmt.decls {
                    proof {
                        lemma_decls_keep(branched, decls@);
                        lemma_decls_bind_within(branched, decls@);
                    }
                    if let Err(e) = self.compile_decls(decls) {
                        proof {
                            lemma_binds_within_twice(branched, self@, self@, by_decls, by_stmts);
                            assert(binds_within(old(self)@, self@, by_decls.union(by_stmts)));
                        }
                        return Err(e);
                    }
                }
                assert(self@.keeps(old(self)@));
                assert(binds_within(branched, self@, by_decls));
                let ghost inside = self@;
                if let Some(stmts) = &stmt.stmts {
                    if let Err(e) = self.compile_stmts(stmts) {
                        proof {
                            lemma_binds_within_twice(branched, inside, self@, by_decls, by_stmts);
                            assert(binds_within(old(self)@, self@, by_decls.union(by_stmts)));
                        }
                        return Err(e);
                    }
                }
                self.emit(Inst::Br { target: cont_bb }, "");
                self.position_at_end(else_bb);
                self.emit(Inst::Br { target: cont_bb }, "");
                self.position_at_end(cont_bb);
                Ok(())
            },
            ControlType::While => {
                let loop_bb = self.append_basic_block(Label::LoopBody);
                let after_bb = self.append_basic_block(Label::AfterLoop);
                self.emit(Inst::Br { target: loop_bb }, "");
                self.position_at_end(loop_bb);
                let ghost entered = self@;
                assert(entered.keeps(old(self)@));
                assert(entered.vars == old(self)@.vars);
                if let Some(decls) = &stmt.decls {
                    proof {
                        lemma_decls_keep(entered, decls@);
                        lemma_decls_bind_within(entered, decls@);
                    }
                    if let Err(e) = self.compile_decls(decls) {
                        proof {
                            lemma_binds_within_twice(entered, self@, self@, by_decls, by_stmts);
                            assert(binds_within(old(self)@, self@, by_decls.union(by_stmts)));
                        }
                        return Err(e);
                    }
                }
                assert(self@.keeps(old(self)@));
                assert(binds_within(entered, self@, by_decls));
                let ghost inside = self@;
                if let Some(stmts) = &stmt.stmts {
                    proof {
                        lemma_stmts_keep(inside, stmts@);
                        lemma_stmts_bind_within(inside, stmts@);
                    }
                    if let Err(e) = self.compile_stmts(stmts) {
                        proof {
                            lemma_binds_within_twice(entered, inside, self@, by_decls, by_stmts);
                            assert(binds_within(old(self)@, self@, by_decls.union(by_stmts)));
                        }
                        return Err(e);
                    }
                }
                assert(self@.keeps(old(self)@));
                let ghost body = self@;
                proof {
                    lemma_binds_within_twice(entered, inside, body, by_decls, by_stmts);
                    assert(binds_within(old(self)@, body, by_decls.union(by_stmts)));
                }
                let value = match self.compile_expr(&stmt.bool) {
                    Ok(value) => value,
                    Err(e) => {
                        assert(binds_within(old(self)@, self@, by_decls.union(by_stmts)));
                        return Err(e);
                    },
                };
                let cond = self.emit(
                    Inst::Compare { pred: Predicate::Equal, left: value, right: Value::Const(0) },
                    "if",
                );
                self.emit(
                    Inst::CondBr { cond: Value::Temp(cond), then_to: after_bb, else_to: loop_bb },
                    "",
                );
                self.position_at_end(after_bb);
                Ok(())
            },
        }
    }

    /// Lowers a `print`.
    pub fn compile_print(&mut self, print: &PrintStmt) -> (r: Result<(), CodeGenError>)
        ensures
            match lower_stmt(old(self)@, print@) {
                Ok(g) => r is Ok && final(self)@ == g,
                Err(e) => r matches Err(f) && f == e,
            },
            r is Err ==> final(self)@.keeps(old(self)@),
            r is Err ==> final(self)@.vars == old(self)@.vars && final(self)@.current
                == old(self)@.current,
    {
        let value = self.compile_expr(&print.expr)?;
        self.emit(Inst::Call { value }, "tmp");
        Ok(())
    }

    /// Lowers the declarations of a list, in order.
    pub fn compile_decls(&mut self, decls: &Decls) -> (r: Result<(), CodeGenError>)
        ensures
            match lower_decls(old(self)@, decls@) {
                Ok(g) => r is Ok && final(self)@ == g,
                Err(e) => r matches Err(f) && f == e,
            },
            r is Err ==> final(self)@.keeps(old(self)@),
            r is Err ==> final(self)@.current == old(self)@.current && binds_within(
                old(self)@,
                final(self)@,
                declared_by_decls(decls@),
            ),
        decreases decls,
    {
        proof {
            lemma_decls_nonempty(*decls);
            lemma_decl_keeps(old(self)@, decls.decl@);
            lemma_expr_keeps(old(self)@.emit(Inst::Alloca, decls.decl@.name), decls.decl@.expr);
        }
        self.compile_decl(&decls.decl)?;
        match &decls.decls {
            Some(rest) => self.compile_decls(rest),
            None => {
                assert(lower_decls(self@, decls@.drop_first()) == Ok::<GenView, CodeGenError>(self@));
                Ok(())
            },
        }
    }

    /// Lowers one declaration. A declaration of a type that has no lowering
    /// leaves the code generator as it was; when the initializer cannot be
    /// lowered, no name is bound.
    pub fn compile_decl(&mut self, decl: &Decl) -> (r: Result<(), CodeGenError>)
        ensures
            match lower_decl(old(self)@, decl@) {
                Ok(g) => r is Ok && final(self)@ == g,
                Err(e) => r matches Err(f) && f == e,
            },
            r is Err ==> final(self)@.keeps(old(self)@),
            r is Err ==> final(self)@.vars == old(self)@.vars && final(self)@.current
                == old(self)@.current,
            decl.ty != Var::Int ==> final(self)@ == old(self)@,
    {
        match decl.ty {
            Var::Str => {
                return Err(CodeGenError::Unimplemented);
            },
            Var::Int => {},
            Var::Bool => {
                return Err(CodeGenError::Unimplemented);
            },
        }
        let alloc = self.emit(Inst::Alloca, decl.name.as_str());
        let value = self.compile_expr(&decl.expr)?;
        self.emit(Inst::Store { slot: alloc, value }, "");
        self.variables.insert(decl.name.clone(), alloc);
        Ok(())
    }

    /// Lowers an expression and gives the value that it leaves.
    pub fn compile_expr(&mut self, expr: &Expr) -> (r: Result<Value, CodeGenError>)
        ensures
            match lower_expr(old(self)@, expr@) {
                Ok((g, value)) => r matches Ok(v) && v == value && final(self)@ == g,
                Err(e) => r matches Err(f) && f == e,
            },
            r is Err ==> final(self)@.keeps(old(self)@),
            r is Err ==> final(self)@.vars == old(self)@.vars && final(self)@.current
                == old(self)@.current,
        decreases operators(expr@), 1int,
    {
        match expr {
            Expr::Unary(data) => match data {
                ExprData::StrLit(_) => Err(CodeGenError::Unimplemented),
                ExprData::IntLit(number) => Ok(Value::Const(*number)),
                ExprData::Name(name) => {
                    let slot = match self.variables.get(name) {
                        Some(slot) => slot,
                        None => {
                            return Err(CodeGenError::MissingSymbol);
                        },
                    };
                    let id = self.emit(Inst::Load { slot }, name.as_str());
                    Ok(Value::Temp(id))
                },
            },
            Expr::Binary(left, right, op) => self.compile_binary_expr(left, right, *op),
        }
    }

    /// Lowers an operator with its two operands, the left one first.
    pub fn compile_binary_expr(&mut self, left: &Expr, right: &Expr, op: Operation) -> (r: Result<
        Value,
        CodeGenError,
    >)
        ensures
            match lower_expr(
                old(self)@,
                ExprView::Binary(Box::new(left@), Box::new(right@), op),
            ) {
                Ok((g, value)) => r matches Ok(v) && v == value && final(self)@ == g,
                Err(e) => r matches Err(f) && f == e,
            },
            r is Err ==> final(self)@.keeps(old(self)@),
            r is Err ==> final(self)@.vars == old(self)@.vars && final(self)@.current
                == old(self)@.current,
        decreases 1 + operators(left@) + operators(right@), 0int,
    {
        let ghost left_view = left@;
        let left = self.compile_expr(left)?;
        proof {
            lemma_expr_keeps(old(self)@, left_view);
        }
        let right = self.compile_expr(right)?;
        match op {
            Operation::Equals => {
                let comp = self.emit(Inst::Compare { pred: Predicate::Equal, left, right }, "tmp");
                let cast = self.emit(Inst::Extend { value: Value::Temp(comp) }, "cast");
                Ok(Value::Temp(cast))
            },
            Operation::GT => {
                let comp = self.emit(Inst::Compare { pred: Predicate::Greater, left, right }, "tmp");
                let cast = self.emit(Inst::Extend { value: Value::Temp(comp) }, "cast");
                Ok(Value::Temp(cast))
            },
            Operation::LT => {
                let comp = self.emit(Inst::Compare { pred: Predicate::Less, left, right }, "tmp");
                let cast = self.emit(Inst::Extend { value: Value::Temp(comp) }, "cast");
                Ok(Value::Temp(cast))
            },
            Operation::Times => {
                let id = self.emit(Inst::Mul { left, right }, "tmp");
                Ok(Value::Temp(id))
            },
            Operation::Plus => {
                let id = self.emit(Inst::Add { left, right }, "tmp");
                Ok(Value::Temp(id))
            },
        }
    }
}

} // verus!
