//! Names and their declarations: when the code generator finds every name
//! that a program uses.

use crate::code_gen::lower::{
    entered, lower_decl, lower_decls, lower_expr, lower_program, lower_stmt, lower_stmts, GenView,
};
use crate::code_gen::ir::{Inst, Label, Predicate, Value};
use crate::code_gen::CodeGenError;
use crate::parser::decls::DeclView;
use crate::parser::expr::{ExprDataView, ExprView};
use crate::parser::program::ProgramView;
use crate::parser::stmts::{ControlType, StmtView};
use crate::parser::var::Var;
use vstd::prelude::*;

verus! {

/// Whether every name in `e` is among `declared`.
pub open spec fn expr_resolves(e: ExprView, declared: Set<Seq<char>>) -> bool
    decreases e,
{
    match e {
        ExprView::Unary(ExprDataView::Name(name)) => declared.contains(name),
        ExprView::Unary(_) => true,
        ExprView::Binary(left, right, _) => expr_resolves(*left, declared) && expr_resolves(
            *right,
            declared,
        ),
    }
}

/// The names declared after the declarations `ds`, if every name that their
/// initializers use was declared before. A declaration is in force from
/// after its own initializer on.
pub open spec fn scope_decls(ds: Seq<DeclView>, declared: Set<Seq<char>>) -> Option<
    Set<Seq<char>>,
>
    decreases ds.len(),
{
    if ds.len() == 0 {
        Some(declared)
    } else if expr_resolves(ds[0].expr, declared) {
        scope_decls(ds.drop_first(), declared.insert(ds[0].name))
    } else {
        None
    }
}

/// The names declared after the statement `s`, if every name that it uses
/// was declared before. There is one scope: what a body declares stays
/// declared after it. The condition of an `if` is looked at before its body,
/// the condition of a `while` after it.
pub open spec fn scope_stmt(s: StmtView, declared: Set<Seq<char>>) -> Option<Set<Seq<char>>>
    decreases s,
{
    match s {
        StmtView::Print(e) => if expr_resolves(e, declared) {
            Some(declared)
        } else {
            None
        },
        StmtView::Assign(name, e) => if declared.contains(name) && expr_resolves(e, declared) {
            Some(declared)
        } else {
            None
        },
        StmtView::Control(ControlType::If, cond, decls, stmts) => if expr_resolves(cond, declared) {
            match scope_decls(decls, declared) {
                Some(inner) => scope_stmts(stmts, inner),
                None => None,
            }
        } else {
            None
        },
        StmtView::Control(ControlType::While, cond, decls, stmts) => match scope_decls(
            decls,
            declared,
        ) {
            Some(inner) => match scope_stmts(stmts, inner) {
                Some(after) => if expr_resolves(cond, after) {
                    Some(after)
                } else {
                    None
                },
                None => None,
            },
            None => None,
        },
    }
}

/// The names declared after the statements `ss`, if every name that they
/// use was declared before.
pub open spec fn scope_stmts(ss: Seq<StmtView>, declared: Set<Seq<char>>) -> Option<Set<Seq<char>>>
    decreases ss,
{
    if ss.len() == 0 {
        Some(declared)
    } else {
        match scope_stmt(ss[0], declared) {
            Some(after) => scope_stmts(ss.drop_first(), after),
            None => None,
        }
    }
}

/// Whether every name that the program reads or assigns was declared before
/// the code generator comes to it.
pub open spec fn declared_before_use(p: ProgramView) -> bool {
    match scope_decls(p.decls, Set::empty()) {
        Some(declared) => scope_stmts(p.stmts, declared) is Some,
        None => false,
    }
}

/// Whether `e` holds no string literal.
pub open spec fn expr_supported(e: ExprView) -> bool
    decreases e,
{
    match e {
        ExprView::Unary(ExprDataView::StrLit(_)) => false,
        ExprView::Unary(_) => true,
        ExprView::Binary(left, right, _) => expr_supported(*left) && expr_supported(*right),
    }
}

/// Whether every declaration of `ds` is of type `int` and none holds a
/// string literal.
pub open spec fn decls_supported(ds: Seq<DeclView>) -> bool {
    forall|i: int| 0 <= i < ds.len() ==> (#[trigger] ds[i]).ty == Var::Int && expr_supported(ds[i].expr)
}

/// Whether the statement declares nothing but `int` and holds no string
/// literal.
pub open spec fn stmt_supported(s: StmtView) -> bool
    decreases s,
{
    match s {
        StmtView::Print(e) => expr_supported(e),
        StmtView::Assign(_, e) => expr_supported(e),
        StmtView::Control(_, cond, decls, stmts) => expr_supported(cond) && decls_supported(decls)
            && stmts_supported(stmts),
    }
}

/// Whether the statements declare nothing but `int` and hold no string
/// literal.
pub open spec fn stmts_supported(ss: Seq<StmtView>) -> bool
    decreases ss,
{
    if ss.len() == 0 {
        true
    } else {
        stmt_supported(ss[0]) && stmts_supported(ss.drop_first())
    }
}

/// Whether the program declares nothing but `int` and holds no string
/// literal.
pub open spec fn supported(p: ProgramView) -> bool {
    decls_supported(p.decls) && stmts_supported(p.stmts)
}

/// How the lowering of one construct ends, held against its names and its
/// types: it succeeds exactly if the construct is supported and its names
/// resolve; a missing symbol means that a name does not resolve; and
/// "unimplemented" means that the construct is not supported.
pub open spec fn agrees(
    outcome: Result<GenView, CodeGenError>,
    scope: Option<Set<Seq<char>>>,
    supported: bool,
) -> bool {
    match outcome {
        Ok(g) => supported && scope == Some(g.vars.dom()),
        Err(CodeGenError::MissingSymbol) => scope is None,
        Err(CodeGenError::Unimplemented) => !supported,
    }
}

/// The lowering of an expression succeeds exactly if the expression holds
/// no string literal and its names are declared; it leaves the names as
/// they are.
proof fn lemma_expr_agrees(g: GenView, e: ExprView)
    ensures
        match lower_expr(g, e) {
            Ok((g1, _)) => expr_supported(e) && expr_resolves(e, g.vars.dom()) && g1.vars == g.vars,
            Err(CodeGenError::MissingSymbol) => !expr_resolves(e, g.vars.dom()),
            Err(CodeGenError::Unimplemented) => !expr_supported(e),
        },
    decreases e,
{
    match e {
        ExprView::Binary(left, right, op) => {
            lemma_expr_agrees(g, *left);
            if let Ok((g1, l)) = lower_expr(g, *left) {
                lemma_expr_agrees(g1, *right);
            }
        },
        _ => {},
    }
}

/// The lowering of declarations agrees with their names and their types.
proof fn lemma_decls_agree(g: GenView, ds: Seq<DeclView>)
    ensures
        agrees(lower_decls(g, ds), scope_decls(ds, g.vars.dom()), decls_supported(ds)),
    decreases ds.len(),
{
    if ds.len() > 0 {
        let d = ds[0];
        let rest = ds.drop_first();
        let reserved = g.emit(Inst::Alloca, d.name);
        lemma_expr_agrees(reserved, d.expr);
        assert forall|i: int| 0 <= i < rest.len() implies rest[i] == ds[i + 1] by {}
        if decls_supported(ds) {
            assert(decls_supported(rest)) by {
                assert forall|i: int| 0 <= i < rest.len() implies (#[trigger] rest[i]).ty == Var::Int
                    && expr_supported(rest[i].expr) by {
                    assert(rest[i] == ds[i + 1]);
                }
            }
        }
        if let Ok(g1) = lower_decl(g, d) {
            assert(g1.vars.dom() =~= g.vars.dom().insert(d.name));
            lemma_decls_agree(g1, rest);
            if decls_supported(rest) {
                assert forall|i: int| 0 <= i < ds.len() implies (#[trigger] ds[i]).ty == Var::Int
                    && expr_supported(ds[i].expr) by {
                    if i > 0 {
                        assert(rest[i - 1] == ds[i]);
                    }
                }
            }
        }
    }
}

/// The lowering of a statement agrees with its names and its types.
proof fn lemma_stmt_agrees(g: GenView, s: StmtView)
    ensures
        agrees(lower_stmt(g, s), scope_stmt(s, g.vars.dom()), stmt_supported(s)),
    decreases s,
{
    match s {
        StmtView::Print(e) => {
            lemma_expr_agrees(g, e);
        },
        StmtView::Assign(name, e) => {
            lemma_expr_agrees(g, e);
        },
        StmtView::Control(ControlType::If, cond, decls, stmts) => {
            lemma_expr_agrees(g, cond);
            if let Ok((g1, value)) = lower_expr(g, cond) {
                let tested = g1.emit(
                    Inst::Compare { pred: Predicate::NotEqual, left: value, right: Value::Const(0) },
                    "if"@,
                );
                let then_bb = tested.next_block();
                let else_bb = (then_bb + 1) as usize;
                let branched = tested.append_block(Label::Then).append_block(
                    Label::Else,
                ).append_block(Label::Cont).emit(
                    Inst::CondBr { cond: Value::Temp(g1.next()), then_to: then_bb, else_to: else_bb },
                    ""@,
                ).position_at_end(then_bb);
                lemma_decls_agree(branched, decls);
                if let Ok(g2) = lower_decls(branched, decls) {
                    lemma_stmts_agree(g2, stmts);
                }
            }
        },
        StmtView::Control(ControlType::While, cond, decls, stmts) => {
            let loop_bb = g.next_block();
            let entered = g.append_block(Label::LoopBody).append_block(Label::AfterLoop).emit(
                Inst::Br { target: loop_bb },
                ""@,
            ).position_at_end(loop_bb);
            lemma_decls_agree(entered, decls);
            if let Ok(g1) = lower_decls(entered, decls) {
                lemma_stmts_agree(g1, stmts);
                if let Ok(g2) = lower_stmts(g1, stmts) {
                    lemma_expr_agrees(g2, cond);
                }
            }
        },
    }
}

/// The lowering of statements agrees with their names and their types.
proof fn lemma_stmts_agree(g: GenView, ss: Seq<StmtView>)
    ensures
        agrees(lower_stmts(g, ss), scope_stmts(ss, g.vars.dom()), stmts_supported(ss)),
    decreases ss,
{
    if ss.len() > 0 {
        lemma_stmt_agrees(g, ss[0]);
        if let Ok(g1) = lower_stmt(g, ss[0]) {
            lemma_stmts_agree(g1, ss.drop_first());
        }
    }
}

/// The code generator lowers a program exactly if the program declares
/// nothing but `int`, holds no string literal, and has declared every name
/// by the time it reads or assigns it. It reports a missing symbol only for
/// a program that uses a name before its declaration, and "unimplemented"
/// only for a program with something that has no lowering.
pub proof fn lemma_names_resolve(p: ProgramView)
    ensures
        lower_program(p) is Ok <==> supported(p) && declared_before_use(p),
        lower_program(p) matches Err(CodeGenError::MissingSymbol) ==> !declared_before_use(p),
        lower_program(p) matches Err(CodeGenError::Unimplemented) ==> !supported(p),
{
    let start = entered();
    assert(start.vars.dom() =~= Set::<Seq<char>>::empty());
    lemma_decls_agree(start, p.decls);
    if let Ok(g1) = lower_decls(start, p.decls) {
        lemma_stmts_agree(g1, p.stmts);
    }
}

/// The names that the declarations `ds` declare.
pub open spec fn declared_by_decls(ds: Seq<DeclView>) -> Set<Seq<char>>
    decreases ds.len(),
{
    if ds.len() == 0 {
        Set::empty()
    } else {
        declared_by_decls(ds.drop_first()).insert(ds[0].name)
    }
}

/// The names that the statement `s` declares, in its body or deeper.
pub open spec fn declared_by_stmt(s: StmtView) -> Set<Seq<char>>
    decreases s,
{
    match s {
        StmtView::Control(_, _, decls, stmts) => declared_by_decls(decls).union(
            declared_by_stmts(stmts),
        ),
        _ => Set::empty(),
    }
}

/// The names that the statements `ss` declare, in their bodies or deeper.
pub open spec fn declared_by_stmts(ss: Seq<StmtView>) -> Set<Seq<char>>
    decreases ss,
{
    if ss.len() == 0 {
        Set::empty()
    } else {
        declared_by_stmt(ss[0]).union(declared_by_stmts(ss.drop_first()))
    }
}

/// Whether the names outside `declared` stand in `g1` for what they stood
/// for in `g`.
pub open spec fn binds_within(g: GenView, g1: GenView, declared: Set<Seq<char>>) -> bool {
    forall|n: Seq<char>|
        !declared.contains(n) ==> (#[trigger] g1.vars.contains_key(n)) == g.vars.contains_key(n)
            && g1.vars[n] == g.vars[n]
}

/// Lowering declarations binds the names that they declare and no others.
pub proof fn lemma_decls_bind_within(g: GenView, ds: Seq<DeclView>)
    ensures
        lower_decls(g, ds) matches Ok(g1) ==> binds_within(g, g1, declared_by_decls(ds)),
    decreases ds.len(),
{
    if ds.len() > 0 {
        lemma_expr_agrees(g.emit(Inst::Alloca, ds[0].name), ds[0].expr);
        if let Ok(g1) = lower_decl(g, ds[0]) {
            lemma_decls_bind_within(g1, ds.drop_first());
            if let Ok(g2) = lower_decls(g1, ds.drop_first()) {
                let declared = declared_by_decls(ds);
                assert forall|n: Seq<char>| !declared.contains(n) implies (
                #[trigger] g2.vars.contains_key(n)) == g.vars.contains_key(n) && g2.vars[n]
                    == g.vars[n] by {
                    assert(!declared_by_decls(ds.drop_first()).contains(n));
                    assert(g1.vars.contains_key(n) == g.vars.contains_key(n));
                }
            }
        }
    }
}

/// Lowering a statement binds the names that it declares and no others.
pub proof fn lemma_stmt_binds_within(g: GenView, s: StmtView)
    ensures
        lower_stmt(g, s) matches Ok(g1) ==> binds_within(g, g1, declared_by_stmt(s)),
    decreases s,
{
    match s {
        StmtView::Print(e) => {
            lemma_expr_agrees(g, e);
        },
        StmtView::Assign(name, e) => {
            lemma_expr_agrees(g, e);
        },
        StmtView::Control(ControlType::If, cond, decls, stmts) => {
            lemma_expr_agrees(g, cond);
            if let Ok((g1, value)) = lower_expr(g, cond) {
                let tested = g1.emit(
                    Inst::Compare { pred: Predicate::NotEqual, left: value, right: Value::Const(0) },
                    "if"@,
                );
                let then_bb = tested.next_block();
                let else_bb = (then_bb + 1) as usize;
                let branched = tested.append_block(Label::Then).append_block(
                    Label::Else,
                ).append_block(Label::Cont).emit(
                    Inst::CondBr { cond: Value::Temp(g1.next()), then_to: then_bb, else_to: else_bb },
                    ""@,
                ).position_at_end(then_bb);
                lemma_decls_bind_within(branched, decls);
                if let Ok(g2) = lower_decls(branched, decls) {
                    lemma_stmts_bind_within(g2, stmts);
                    if let Ok(g3) = lower_stmts(g2, stmts) {
                        lemma_binds_within_twice(
                            branched,
                            g2,
                            g3,
                            declared_by_decls(decls),
                            declared_by_stmts(stmts),
                        );
                    }
                }
            }
        },
        StmtView::Control(ControlType::While, cond, decls, stmts) => {
            let loop_bb = g.next_block();
            let entered = g.append_block(Label::LoopBody).append_block(Label::AfterLoop).emit(
                Inst::Br { target: loop_bb },
                ""@,
            ).position_at_end(loop_bb);
            lemma_decls_bind_within(entered, decls);
            if let Ok(g1) = lower_decls(entered, decls) {
                lemma_stmts_bind_within(g1, stmts);
                if let Ok(g2) = lower_stmts(g1, stmts) {
                    lemma_expr_agrees(g2, cond);
                    lemma_binds_within_twice(
                        entered,
                        g1,
                        g2,
                        declared_by_decls(decls),
                        declared_by_stmts(stmts),
                    );
                }
            }
        },
    }
}

/// Lowering statements binds the names that they declare and no others.
pub proof fn lemma_stmts_bind_within(g: GenView, ss: Seq<StmtView>)
    ensures
        lower_stmts(g, ss) matches Ok(g1) ==> binds_within(g, g1, declared_by_stmts(ss)),
    decreases ss,
{
    if ss.len() > 0 {
        lemma_stmt_binds_within(g, ss[0]);
        if let Ok(g1) = lower_stmt(g, ss[0]) {
            lemma_stmts_bind_within(g1, ss.drop_first());
            if let Ok(g2) = lower_stmts(g1, ss.drop_first()) {
                lemma_binds_within_twice(
                    g,
                    g1,
                    g2,
                    declared_by_stmt(ss[0]),
                    declared_by_stmts(ss.drop_first()),
                );
            }
        }
    }
}

/// What is bound within one set of names and then within another is bound
/// within the two together.
pub proof fn lemma_binds_within_twice(
    g: GenView,
    g1: GenView,
    g2: GenView,
    first: Set<Seq<char>>,
    second: Set<Seq<char>>,
)
    requires
        binds_within(g, g1, first),
        binds_within(g1, g2, second),
    ensures
        binds_within(g, g2, first.union(second)),
{
    assert forall|n: Seq<char>| !first.union(second).contains(n) implies (
    #[trigger] g2.vars.contains_key(n)) == g.vars.contains_key(n) && g2.vars[n] == g.vars[n] by {
        assert(g1.vars.contains_key(n) == g.vars.contains_key(n));
    }
}

} // verus!
