//! Slots and the control-flow graph: when every read and write of a slot is
//! sure to come after the step that reserves it.

use crate::code_gen::ir::{FunctionView, Inst, Label, Predicate, StepView, Value};
use crate::code_gen::laws::{extends, lemma_decls_grow, lemma_expr_grows, lemma_stmts_grow};
use crate::code_gen::lower::{
    entered, lower_comparison, lower_decl, lower_decls, lower_expr, lower_operation, lower_program,
    lower_stmt, lower_stmts, GenView,
};
use crate::code_gen::scope::{
    binds_within, declared_by_decls, declared_by_stmt, declared_by_stmts, expr_resolves,
    lemma_binds_within_twice, scope_decls,
};
use crate::code_gen::CodeGenError;
use crate::parser::decls::DeclView;
use crate::parser::expr::{ExprDataView, ExprView, Operation};
use crate::parser::program::ProgramView;
use crate::parser::stmts::{ControlType, StmtView};
use vstd::prelude::*;

verus! {

/// Whether control may pass from the end of block `a` to block `b`.
pub open spec fn edge(code: Seq<StepView>, a: usize, b: usize) -> bool {
    exists|t: int| 0 <= t < code.len() && (#[trigger] code[t]).block == a && code[t].inst.goes_to(b)
}

/// Whether `path` is a way through the function: it starts at the first
/// block, and control may pass from each of its blocks to the next.
pub open spec fn is_path(code: Seq<StepView>, path: Seq<usize>) -> bool {
    &&& path.len() > 0
    &&& path[0] == 0
    &&& forall|i: int| 0 <= i < path.len() - 1 ==> edge(code, #[trigger] path[i], path[i + 1])
}

/// Block `a` dominates block `b`: every way through the function that
/// reaches `b` has passed through `a`.
pub open spec fn dominates(code: Seq<StepView>, a: usize, b: usize) -> bool {
    forall|path: Seq<usize>| #[trigger] is_path(code, path) && path.last() == b ==> path.contains(a)
}

impl FunctionView {
    /// Every step that reads or writes a slot comes after the step that
    /// reserves the slot, in a block that the reserving block dominates.
    pub open spec fn slots_dominate(self) -> bool {
        forall|u: int|
            0 <= u < self.code.len() ==> ((#[trigger] self.code[u]).inst.slot() matches Some(s) ==> s
                < u && dominates(self.code, self.code[s as int].block, self.code[u].block))
    }
}

/// The names that may be used after the statement `s`, if `s` uses only
/// names that may be used before it. What the body of an `if` declares may
/// not be used after the `if`, for the body may not have run; what the body
/// of a `while` declares may, for that body runs at least once.
pub open spec fn usable_after_stmt(s: StmtView, usable: Set<Seq<char>>) -> Option<Set<Seq<char>>>
    decreases s,
{
    match s {
        StmtView::Print(e) => if expr_resolves(e, usable) {
            Some(usable)
        } else {
            None
        },
        StmtView::Assign(name, e) => if usable.contains(name) && expr_resolves(e, usable) {
            Some(usable)
        } else {
            None
        },
        StmtView::Control(ControlType::If, cond, decls, stmts) => if expr_resolves(cond, usable) {
            match scope_decls(decls, usable) {
                Some(inner) => match usable_after_stmts(stmts, inner) {
                    Some(_) => Some(
                        usable.difference(declared_by_decls(decls).union(declared_by_stmts(stmts))),
                    ),
                    None => None,
                },
                None => None,
            }
        } else {
            None
        },
        StmtView::Control(ControlType::While, cond, decls, stmts) => match scope_decls(
            decls,
            usable,
        ) {
            Some(inner) => match usable_after_stmts(stmts, inner) {
                Some(after) => if expr_resolves(cond, after) {
                    Some(after)
                } else {
                    None
                },
                None => None,
            },
            None => None,
        },
    }
}

/// The names that may be used after the statements `ss`, if they use only
/// names that may be used where they stand.
pub open spec fn usable_after_stmts(ss: Seq<StmtView>, usable: Set<Seq<char>>) -> Option<
    Set<Seq<char>>,
>
    decreases ss,
{
    if ss.len() == 0 {
        Some(usable)
    } else {
        match usable_after_stmt(ss[0], usable) {
            Some(after) => usable_after_stmts(ss.drop_first(), after),
            None => None,
        }
    }
}

/// Whether the program uses every name where its declaration is sure to
/// have run.
pub open spec fn block_scoped(p: ProgramView) -> bool {
    match scope_decls(p.decls, Set::empty()) {
        Some(usable) => usable_after_stmts(p.stmts, usable) is Some,
        None => false,
    }
}

/// For every branch, what is known to dominate the target is the target
/// itself or is known to dominate the block of the branch.
spec fn edges_ok(code: Seq<StepView>, d: Map<usize, Set<usize>>) -> bool {
    forall|t: int, b: usize, x: usize|
        #![trigger code[t].inst.goes_to(b), d[b].contains(x)]
        0 <= t < code.len() && code[t].inst.goes_to(b) && d[b].contains(x) ==> x == b
            || d[code[t].block].contains(x)
}

/// Every read and write of a slot comes after the step that reserves the
/// slot, and the block of that step is known to dominate its block.
spec fn uses_ok(code: Seq<StepView>, d: Map<usize, Set<usize>>) -> bool {
    forall|u: int|
        0 <= u < code.len() ==> ((#[trigger] code[u]).inst.slot() matches Some(s) ==> s < u
            && d[code[u].block].contains(code[s as int].block))
}

/// Every usable name stands for a slot whose block is known to dominate the
/// current block.
spec fn usable_ok(g: GenView, d: Map<usize, Set<usize>>, usable: Set<Seq<char>>) -> bool {
    forall|n: Seq<char>| #[trigger]
        usable.contains(n) ==> g.vars.contains_key(n) && g.vars[n] < g.code.len()
            && d[g.current].contains(g.code[g.vars[n] as int].block)
}

/// Every step is in a block of the function and branches to blocks of the
/// function only.
spec fn within(code: Seq<StepView>, blocks: int) -> bool {
    &&& forall|t: int| 0 <= t < code.len() ==> (#[trigger] code[t]).block < blocks
    &&& forall|t: int, b: usize|
        0 <= t < code.len() && #[trigger] code[t].inst.goes_to(b) ==> b < blocks
}

/// What is known of dominance while the code generator works.
spec fn dom_inv(g: GenView, d: Map<usize, Set<usize>>, usable: Set<Seq<char>>) -> bool {
    &&& g.code.len() <= usize::MAX
    &&& g.blocks.len() <= usize::MAX
    &&& g.current < g.blocks.len()
    &&& within(g.code, g.blocks.len() as int)
    &&& d[0] == set![0usize]
    &&& d[g.current].contains(g.current)
    &&& edges_ok(g.code, d)
    &&& uses_ok(g.code, d)
    &&& usable_ok(g, d, usable)
}

/// How the state moves on when a construct is lowered: steps and blocks are
/// added; the new steps are in the block that was current or in new blocks,
/// and branch to new blocks only; afterwards the current block is the one
/// it was or a new one; what is known of the blocks there were stays; and
/// what was known to dominate the current block is known to dominate the
/// new current block.
spec fn advances(
    g: GenView,
    d: Map<usize, Set<usize>>,
    g1: GenView,
    d1: Map<usize, Set<usize>>,
) -> bool {
    &&& extends(g.code, g1.code)
    &&& g.blocks.len() <= g1.blocks.len()
    &&& g1.current == g.current || g1.current >= g.blocks.len()
    &&& forall|t: int|
        g.code.len() <= t < g1.code.len() ==> (#[trigger] g1.code[t]).block == g.current
            || g1.code[t].block >= g.blocks.len()
    &&& forall|t: int, b: usize|
        g.code.len() <= t < g1.code.len() && #[trigger] g1.code[t].inst.goes_to(b) ==> b
            >= g.blocks.len()
    &&& forall|b: usize| b < g.blocks.len() ==> #[trigger] d1[b] == d[b]
    &&& d[g.current].subset_of(d1[g1.current])
}

/// A step keeps what is known: a read or write needs the block of its slot
/// known to dominate the current block, and a branch needs whatever is known
/// to dominate its target known to dominate the current block too.
proof fn lemma_dom_emit(
    g: GenView,
    d: Map<usize, Set<usize>>,
    usable: Set<Seq<char>>,
    inst: Inst,
    name: Seq<char>,
)
    requires
        dom_inv(g, d, usable),
        g.code.len() < usize::MAX,
        inst.slot() matches Some(s) ==> s < g.code.len() && d[g.current].contains(
            g.code[s as int].block,
        ),
        forall|b: usize| inst.goes_to(b) ==> b < g.blocks.len(),
        forall|b: usize, x: usize|
            inst.goes_to(b) && #[trigger] d[b].contains(x) ==> x == b || d[g.current].contains(x),
    ensures
        dom_inv(g.emit(inst, name), d, usable),
{
    let after = g.emit(inst, name);
    let code = g.code;
    let more = after.code;
    let last = code.len() as int;
    assert forall|t: int, b: usize, x: usize|
        #![trigger more[t].inst.goes_to(b), d[b].contains(x)]
        0 <= t < more.len() && more[t].inst.goes_to(b) && d[b].contains(x) implies x == b
        || d[more[t].block].contains(x) by {
        if t < last {
            assert(more[t] == code[t]);
            assert(code[t].inst.goes_to(b) && d[b].contains(x));
        }
    }
    assert forall|u: int| 0 <= u < more.len() implies ((#[trigger] more[u]).inst.slot() matches Some(
        s,
    ) ==> s < u && d[more[u].block].contains(more[s as int].block)) by {
        if u < last {
            assert(more[u] == code[u]);
            if let Some(s) = code[u].inst.slot() {
                assert(more[s as int] == code[s as int]);
            }
        } else {
            if let Some(s) = inst.slot() {
                assert(more[s as int] == code[s as int]);
            }
        }
    }
    assert forall|n: Seq<char>| #[trigger] usable.contains(n) implies after.vars.contains_key(n)
        && after.vars[n] < more.len() && d[after.current].contains(
        more[after.vars[n] as int].block,
    ) by {
        assert(more[g.vars[n] as int] == code[g.vars[n] as int]);
    }
    assert(within(more, after.blocks.len() as int)) by {
        assert forall|t: int| 0 <= t < more.len() implies (#[trigger] more[t]).block
            < after.blocks.len() by {
            if t < last {
                assert(more[t] == code[t]);
            }
        }
        assert forall|t: int, b: usize|
            0 <= t < more.len() && #[trigger] more[t].inst.goes_to(b) implies b
            < after.blocks.len() by {
            if t < last {
                assert(more[t] == code[t]);
                assert(code[t].inst.goes_to(b));
            }
        }
    }
}

/// The code generator may move on to a block that is known to dominate
/// itself and to be dominated by the slot blocks of the names usable there.
proof fn lemma_dom_position(
    g: GenView,
    d: Map<usize, Set<usize>>,
    usable: Set<Seq<char>>,
    then_usable: Set<Seq<char>>,
    b: usize,
)
    requires
        dom_inv(g, d, usable),
        b < g.blocks.len(),
        d[b].contains(b),
        forall|n: Seq<char>| #[trigger]
            then_usable.contains(n) ==> g.vars.contains_key(n) && g.vars[n] < g.code.len()
                && d[b].contains(g.code[g.vars[n] as int].block),
    ensures
        dom_inv(g.position_at_end(b), d, then_usable),
{
}

/// A new block may be given anything as known to dominate it: it has no
/// steps, and no branch goes to it.
proof fn lemma_dom_append(
    g: GenView,
    d: Map<usize, Set<usize>>,
    usable: Set<Seq<char>>,
    label: Label,
    known: Set<usize>,
)
    requires
        dom_inv(g, d, usable),
        g.blocks.len() < usize::MAX,
    ensures
        dom_inv(g.append_block(label), d.insert(g.next_block(), known), usable),
        g.append_block(label).next_block() == g.next_block() + 1,
{
    let k = g.next_block();
    let after = g.append_block(label);
    let d1 = d.insert(k, known);
    let code = g.code;
    assert forall|t: int, b: usize, x: usize|
        #![trigger code[t].inst.goes_to(b), d1[b].contains(x)]
        0 <= t < code.len() && code[t].inst.goes_to(b) && d1[b].contains(x) implies x == b
        || d1[code[t].block].contains(x) by {
        assert(code[t].block < g.blocks.len());
        assert(b < g.blocks.len());
        assert(code[t].inst.goes_to(b) && d[b].contains(x));
    }
    assert forall|u: int| 0 <= u < code.len() implies ((#[trigger] code[u]).inst.slot() matches Some(
        s,
    ) ==> s < u && d1[code[u].block].contains(code[s as int].block)) by {
        assert(code[u].block < g.blocks.len());
    }
}

/// What is known of a block without steps and without branches to it may
/// be replaced.
proof fn lemma_dom_redefine(
    g: GenView,
    d: Map<usize, Set<usize>>,
    usable: Set<Seq<char>>,
    k: usize,
    known: Set<usize>,
)
    requires
        dom_inv(g, d, usable),
        k != 0,
        k != g.current,
        forall|t: int| 0 <= t < g.code.len() ==> (#[trigger] g.code[t]).block != k,
        forall|t: int| 0 <= t < g.code.len() ==> !(#[trigger] g.code[t]).inst.goes_to(k),
    ensures
        dom_inv(g, d.insert(k, known), usable),
{
    let d1 = d.insert(k, known);
    let code = g.code;
    assert forall|t: int, b: usize, x: usize|
        #![trigger code[t].inst.goes_to(b), d1[b].contains(x)]
        0 <= t < code.len() && code[t].inst.goes_to(b) && d1[b].contains(x) implies x == b
        || d1[code[t].block].contains(x) by {
        assert(code[t].block != k);
        assert(!code[t].inst.goes_to(k));
        assert(code[t].inst.goes_to(b) && d[b].contains(x));
    }
    assert forall|u: int| 0 <= u < code.len() implies ((#[trigger] code[u]).inst.slot() matches Some(
        s,
    ) ==> s < u && d1[code[u].block].contains(code[s as int].block)) by {
        assert(code[u].block != k);
    }
}

/// A name bound to a slot whose block is known to dominate the current
/// block becomes usable.
proof fn lemma_dom_bind(
    g: GenView,
    d: Map<usize, Set<usize>>,
    usable: Set<Seq<char>>,
    name: Seq<char>,
    slot: usize,
)
    requires
        dom_inv(g, d, usable),
        slot < g.code.len(),
        d[g.current].contains(g.code[slot as int].block),
    ensures
        dom_inv(g.bind(name, slot), d, usable.insert(name)),
{
    let after = g.bind(name, slot);
    let more = usable.insert(name);
    assert forall|n: Seq<char>| #[trigger] more.contains(n) implies after.vars.contains_key(n)
        && after.vars[n] < after.code.len() && d[after.current].contains(
        after.code[after.vars[n] as int].block,
    ) by {
        if n != name {
            assert(usable.contains(n));
        }
    }
}

/// What is known to dominate a block does dominate it.
proof fn lemma_known_dominates(
    code: Seq<StepView>,
    d: Map<usize, Set<usize>>,
    path: Seq<usize>,
    x: usize,
)
    requires
        edges_ok(code, d),
        d[0] == set![0usize],
        is_path(code, path),
        d[path.last()].contains(x),
    ensures
        path.contains(x),
    decreases path.len(),
{
    if path.len() == 1 {
        assert(path[0] == x);
    } else {
        let shorter = path.drop_last();
        let a = shorter.last();
        let b = path.last();
        assert(path[path.len() - 2] == a);
        assert(edge(code, a, b));
        let t = choose|t: int|
            0 <= t < code.len() && (#[trigger] code[t]).block == a && code[t].inst.goes_to(b);
        assert(code[t].inst.goes_to(b) && d[b].contains(x));
        if x == b {
            assert(path[path.len() - 1] == x);
        } else {
            assert(is_path(code, shorter)) by {
                assert forall|i: int| 0 <= i < shorter.len() - 1 implies edge(
                    code,
                    #[trigger] shorter[i],
                    shorter[i + 1],
                ) by {
                    assert(shorter[i] == path[i]);
                    assert(edge(code, path[i], path[i + 1]));
                }
            }
            lemma_known_dominates(code, d, shorter, x);
            let i = choose|i: int| 0 <= i < shorter.len() && shorter[i] == x;
            assert(path[i] == x);
        }
    }
}

/// Every step from number `from` on is in block `block` and is no branch.
spec fn local_from(code: Seq<StepView>, from: int, block: usize) -> bool {
    &&& forall|t: int| from <= t < code.len() ==> (#[trigger] code[t]).block == block
    &&& forall|t: int, b: usize| from <= t < code.len() ==> !#[trigger] code[t].inst.goes_to(b)
}

/// How the state moves on when something without control flow is lowered:
/// steps are added to the current block, none of them a branch, and blocks
/// and the current block stay as they were.
spec fn stays(g: GenView, g1: GenView) -> bool {
    &&& extends(g.code, g1.code)
    &&& g1.blocks == g.blocks
    &&& g1.current == g.current
    &&& local_from(g1.code, g.code.len() as int, g.current)
}

/// A step that is no branch, added to the current block, stays in place.
proof fn lemma_stays_emit(g: GenView, g1: GenView, inst: Inst, name: Seq<char>)
    requires
        stays(g, g1),
        forall|b: usize| !inst.goes_to(b),
    ensures
        stays(g, g1.emit(inst, name)),
{
    let more = g1.emit(inst, name).code;
    assert forall|t: int| g.code.len() <= t < more.len() implies (#[trigger] more[t]).block
        == g.current by {
        if t < g1.code.len() {
            assert(more[t] == g1.code[t]);
        }
    }
    assert forall|t: int, b: usize| g.code.len() <= t < more.len() implies
        !#[trigger] more[t].inst.goes_to(b) by {
        if t < g1.code.len() {
            assert(more[t] == g1.code[t]);
        }
    }
}

/// Staying in place twice is staying in place.
proof fn lemma_stays_twice(g: GenView, g1: GenView, g2: GenView)
    requires
        stays(g, g1),
        stays(g1, g2),
    ensures
        stays(g, g2),
{
    assert forall|t: int| g.code.len() <= t < g2.code.len() implies (#[trigger] g2.code[t]).block
        == g.current by {
        if t < g1.code.len() {
            assert(g2.code[t] == g1.code[t]);
        }
    }
    assert forall|t: int, b: usize| g.code.len() <= t < g2.code.len() implies
        !#[trigger] g2.code[t].inst.goes_to(b) by {
        if t < g1.code.len() {
            assert(g2.code[t] == g1.code[t]);
        }
    }
}

/// Lowering an expression whose names are usable keeps what is known, and
/// stays in place.
proof fn lemma_expr_dom(g: GenView, e: ExprView, d: Map<usize, Set<usize>>, usable: Set<Seq<char>>)
    requires
        dom_inv(g, d, usable),
        expr_resolves(e, usable),
        lower_expr(g, e) matches Ok((g1, _)) && g1.code.len() <= usize::MAX,
    ensures
        lower_expr(g, e) matches Ok((g1, _)) && dom_inv(g1, d, usable) && stays(g, g1) && g1.vars
            == g.vars,
    decreases e,
{
    match e {
        ExprView::Unary(ExprDataView::StrLit(_)) => {},
        ExprView::Unary(ExprDataView::IntLit(_)) => {},
        ExprView::Unary(ExprDataView::Name(name)) => {
            assert(usable.contains(name));
            let load = Inst::Load { slot: g.vars[name] };
            lemma_dom_emit(g, d, usable, load, name);
            lemma_stays_emit(g, g, load, name);
        },
        ExprView::Binary(left, right, op) => {
            let (g1, l) = lower_expr(g, *left)->Ok_0;
            let (g2, r) = lower_expr(g1, *right)->Ok_0;
            lemma_expr_grows(g1, *right);
            lemma_operation_dom(g2, op, l, r, d, usable);
            lemma_expr_dom(g, *left, d, usable);
            lemma_expr_dom(g1, *right, d, usable);
            lemma_stays_twice(g, g1, g2);
            lemma_stays_twice(g, g2, lower_operation(g2, op, l, r).0);
        },
    }
}

/// Lowering an operator keeps what is known, and stays in place.
proof fn lemma_operation_dom(
    g: GenView,
    op: Operation,
    left: Value,
    right: Value,
    d: Map<usize, Set<usize>>,
    usable: Set<Seq<char>>,
)
    ensures
        g.code.len() <= lower_operation(g, op, left, right).0.code.len(),
        lower_operation(g, op, left, right).0.vars == g.vars,
        dom_inv(g, d, usable) && lower_operation(g, op, left, right).0.code.len() <= usize::MAX ==> {
            let g1 = lower_operation(g, op, left, right).0;
            dom_inv(g1, d, usable) && stays(g, g1)
        },
{
    if dom_inv(g, d, usable) && lower_operation(g, op, left, right).0.code.len() <= usize::MAX {
        match op {
            Operation::Plus => {
                lemma_dom_emit(g, d, usable, Inst::Add { left, right }, "tmp"@);
                lemma_stays_emit(g, g, Inst::Add { left, right }, "tmp"@);
            },
            Operation::Times => {
                lemma_dom_emit(g, d, usable, Inst::Mul { left, right }, "tmp"@);
                lemma_stays_emit(g, g, Inst::Mul { left, right }, "tmp"@);
            },
            Operation::Equals => {
                lemma_comparison_dom(g, Predicate::Equal, left, right, d, usable);
            },
            Operation::GT => {
                lemma_comparison_dom(g, Predicate::Greater, left, right, d, usable);
            },
            Operation::LT => {
                lemma_comparison_dom(g, Predicate::Less, left, right, d, usable);
            },
        }
    }
}

/// Lowering a comparison keeps what is known, and stays in place.
proof fn lemma_comparison_dom(
    g: GenView,
    pred: Predicate,
    left: Value,
    right: Value,
    d: Map<usize, Set<usize>>,
    usable: Set<Seq<char>>,
)
    requires
        dom_inv(g, d, usable),
        g.code.len() + 2 <= usize::MAX,
    ensures
        dom_inv(lower_comparison(g, pred, left, right).0, d, usable),
        stays(g, lower_comparison(g, pred, left, right).0),
{
    let test = Inst::Compare { pred, left, right };
    let compared = g.emit(test, "tmp"@);
    let wide = Inst::Extend { value: Value::Temp(g.next()) };
    lemma_dom_emit(g, d, usable, test, "tmp"@);
    lemma_dom_emit(compared, d, usable, wide, "cast"@);
    lemma_stays_emit(g, g, test, "tmp"@);
    lemma_stays_emit(g, compared, wide, "cast"@);
}

/// Lowering a declaration keeps what is known, stays in place, and makes
/// the declared name usable.
proof fn lemma_decl_dom(g: GenView, dv: DeclView, d: Map<usize, Set<usize>>, usable: Set<Seq<char>>)
    requires
        dom_inv(g, d, usable),
        expr_resolves(dv.expr, usable),
        lower_decl(g, dv) matches Ok(g1) && g1.code.len() <= usize::MAX,
    ensures
        lower_decl(g, dv) matches Ok(g1) && dom_inv(g1, d, usable.insert(dv.name)) && stays(g, g1)
            && binds_within(g, g1, set![dv.name]),
{
    let reserved = g.emit(Inst::Alloca, dv.name);
    lemma_expr_grows(reserved, dv.expr);
    lemma_dom_emit(g, d, usable, Inst::Alloca, dv.name);
    lemma_stays_emit(g, g, Inst::Alloca, dv.name);
    lemma_expr_dom(reserved, dv.expr, d, usable);
    let (g1, value) = lower_expr(reserved, dv.expr)->Ok_0;
    let slot = g.next();
    assert(g1.code[slot as int] == reserved.code[slot as int]);
    let store = Inst::Store { slot, value };
    lemma_dom_emit(g1, d, usable, store, ""@);
    let stored = g1.emit(store, ""@);
    assert(stored.code[slot as int] == g1.code[slot as int]);
    lemma_dom_bind(stored, d, usable, dv.name, slot);
    lemma_stays_twice(g, reserved, g1);
    lemma_stays_emit(g, g1, store, ""@);
}

/// Lowering declarations keeps what is known, stays in place, and makes
/// the declared names usable.
proof fn lemma_decls_dom(
    g: GenView,
    ds: Seq<DeclView>,
    d: Map<usize, Set<usize>>,
    usable: Set<Seq<char>>,
)
    requires
        dom_inv(g, d, usable),
        scope_decls(ds, usable) is Some,
        lower_decls(g, ds) matches Ok(g1) && g1.code.len() <= usize::MAX,
    ensures
        lower_decls(g, ds) matches Ok(g1) && scope_decls(ds, usable) matches Some(then_usable)
            && dom_inv(g1, d, then_usable) && stays(g, g1) && binds_within(g, g1, declared_by_decls(ds)),
    decreases ds.len(),
{
    if ds.len() > 0 {
        let g1 = lower_decl(g, ds[0])->Ok_0;
        let g2 = lower_decls(g1, ds.drop_first())->Ok_0;
        lemma_decls_grow(g1, ds.drop_first());
        lemma_decl_dom(g, ds[0], d, usable);
        lemma_decls_dom(g1, ds.drop_first(), d, usable.insert(ds[0].name));
        lemma_stays_twice(g, g1, g2);
    }
}

/// Staying in place is a way of moving on.
proof fn lemma_stays_advances(g: GenView, g1: GenView, d: Map<usize, Set<usize>>)
    requires
        stays(g, g1),
    ensures
        advances(g, d, g1, d),
{
}

/// Moving on twice is moving on.
proof fn lemma_advances_chain(
    g: GenView,
    d: Map<usize, Set<usize>>,
    g1: GenView,
    d1: Map<usize, Set<usize>>,
    g2: GenView,
    d2: Map<usize, Set<usize>>,
)
    requires
        advances(g, d, g1, d1),
        advances(g1, d1, g2, d2),
    ensures
        advances(g, d, g2, d2),
{
    assert forall|t: int| g.code.len() <= t < g2.code.len() implies (#[trigger] g2.code[t]).block
        == g.current || g2.code[t].block >= g.blocks.len() by {
        if t < g1.code.len() {
            assert(g2.code[t] == g1.code[t]);
        }
    }
    assert forall|t: int, b: usize|
        g.code.len() <= t < g2.code.len() && #[trigger] g2.code[t].inst.goes_to(b) implies b
        >= g.blocks.len() by {
        if t < g1.code.len() {
            assert(g2.code[t] == g1.code[t]);
            assert(g1.code[t].inst.goes_to(b));
        }
    }
    assert forall|b: usize| b < g.blocks.len() implies #[trigger] d2[b] == d[b] by {
        assert(d1[b] == d[b]);
    }
}

/// Moving on, then a step that branches to new blocks only, is moving on.
proof fn lemma_advances_emit(
    g: GenView,
    d: Map<usize, Set<usize>>,
    g1: GenView,
    d1: Map<usize, Set<usize>>,
    inst: Inst,
    name: Seq<char>,
)
    requires
        advances(g, d, g1, d1),
        forall|b: usize| inst.goes_to(b) ==> b >= g.blocks.len(),
    ensures
        advances(g, d, g1.emit(inst, name), d1),
{
    let more = g1.emit(inst, name).code;
    assert forall|t: int| g.code.len() <= t < more.len() implies (#[trigger] more[t]).block
        == g.current || more[t].block >= g.blocks.len() by {
        if t < g1.code.len() {
            assert(more[t] == g1.code[t]);
        }
    }
    assert forall|t: int, b: usize|
        g.code.len() <= t < more.len() && #[trigger] more[t].inst.goes_to(b) implies b
        >= g.blocks.len() by {
        if t < g1.code.len() {
            assert(more[t] == g1.code[t]);
            assert(g1.code[t].inst.goes_to(b));
        }
    }
}

/// Moving on, then a new block, is moving on.
proof fn lemma_advances_append(
    g: GenView,
    d: Map<usize, Set<usize>>,
    g1: GenView,
    d1: Map<usize, Set<usize>>,
    label: Label,
    known: Set<usize>,
)
    requires
        advances(g, d, g1, d1),
        g1.current < g1.blocks.len() < usize::MAX,
    ensures
        advances(g, d, g1.append_block(label), d1.insert(g1.next_block(), known)),
{
    let d2 = d1.insert(g1.next_block(), known);
    assert forall|b: usize| b < g.blocks.len() implies #[trigger] d2[b] == d[b] by {
        assert(d1[b] == d[b]);
    }
}

/// Moving on, then new knowledge of a new block that is not current, is
/// moving on.
proof fn lemma_advances_redefine(
    g: GenView,
    d: Map<usize, Set<usize>>,
    g1: GenView,
    d1: Map<usize, Set<usize>>,
    k: usize,
    known: Set<usize>,
)
    requires
        advances(g, d, g1, d1),
        k >= g.blocks.len(),
        k != g1.current,
    ensures
        advances(g, d, g1, d1.insert(k, known)),
{
    let d2 = d1.insert(k, known);
    assert forall|b: usize| b < g.blocks.len() implies #[trigger] d2[b] == d[b] by {
        assert(d1[b] == d[b]);
    }
}

/// Moving on, then going to a new block that is known to be dominated by
/// what dominated the block at the start, is moving on.
proof fn lemma_advances_position(
    g: GenView,
    d: Map<usize, Set<usize>>,
    g1: GenView,
    d1: Map<usize, Set<usize>>,
    b: usize,
)
    requires
        advances(g, d, g1, d1),
        b >= g.blocks.len(),
        d[g.current].subset_of(d1[b]),
    ensures
        advances(g, d, g1.position_at_end(b), d1),
{
}

/// Lowering an `if` keeps what is known and moves on. The three blocks are
/// dominated by the block of the branch, so what the body declares is not
/// usable after it.
proof fn lemma_if_dom(
    g: GenView,
    cond: ExprView,
    decls: Seq<DeclView>,
    stmts: Seq<StmtView>,
    d: Map<usize, Set<usize>>,
    usable: Set<Seq<char>>,
) -> (d1: Map<usize, Set<usize>>)
    requires
        dom_inv(g, d, usable),
        usable_after_stmt(StmtView::Control(ControlType::If, cond, decls, stmts), usable) is Some,
        lower_stmt(g, StmtView::Control(ControlType::If, cond, decls, stmts)) matches Ok(g1)
            && g1.code.len() <= usize::MAX && g1.blocks.len() <= usize::MAX,
    ensures
        ({
            let s = StmtView::Control(ControlType::If, cond, decls, stmts);
            lower_stmt(g, s) matches Ok(g1) && usable_after_stmt(s, usable) matches Some(
                then_usable,
            ) && dom_inv(g1, d1, then_usable) && advances(g, d, g1, d1) && binds_within(
                g,
                g1,
                declared_by_stmt(s),
            )
        }),
    decreases stmts, 1int,
{
    let s = StmtView::Control(ControlType::If, cond, decls, stmts);
    let (g1, value) = lower_expr(g, cond)->Ok_0;
    let test = Inst::Compare { pred: Predicate::NotEqual, left: value, right: Value::Const(0) };
    let tested = g1.emit(test, "if"@);
    let then_bb = tested.next_block();
    let else_bb = (then_bb + 1) as usize;
    let cont_bb = (then_bb + 2) as usize;
    let b1 = tested.append_block(Label::Then);
    let b2 = b1.append_block(Label::Else);
    let b3 = b2.append_block(Label::Cont);
    let branch = Inst::CondBr { cond: Value::Temp(g1.next()), then_to: then_bb, else_to: else_bb };
    let b4 = b3.emit(branch, ""@);
    let branched = b4.position_at_end(then_bb);
    let g2 = lower_decls(branched, decls)->Ok_0;
    let g3 = lower_stmts(g2, stmts)->Ok_0;
    let jump = Inst::Br { target: cont_bb };
    let j1 = g3.emit(jump, ""@);
    let j2 = j1.position_at_end(else_bb);
    let j3 = j2.emit(jump, ""@);
    let j4 = j3.position_at_end(cont_bb);
    assert(lower_stmt(g, s) == Ok::<GenView, CodeGenError>(j4));
    lemma_decls_grow(branched, decls);
    lemma_stmts_grow(g2, stmts);
    let inner = scope_decls(decls, usable)->0;
    let body_usable = usable_after_stmts(stmts, inner)->0;
    let declared = declared_by_decls(decls).union(declared_by_stmts(stmts));
    let then_usable = usable.difference(declared);
    let none = Set::<Seq<char>>::empty();
    let base = d[g.current];

    // The condition and its test.
    lemma_expr_dom(g, cond, d, usable);
    lemma_stays_advances(g, g1, d);
    lemma_dom_emit(g1, d, usable, test, "if"@);
    lemma_advances_emit(g, d, g1, d, test, "if"@);

    // The three blocks.
    let da = d.insert(then_bb, base.insert(then_bb));
    let db = da.insert(else_bb, base.insert(else_bb));
    let dc = db.insert(cont_bb, base.insert(cont_bb));
    lemma_dom_append(tested, d, usable, Label::Then, base.insert(then_bb));
    lemma_advances_append(g, d, tested, d, Label::Then, base.insert(then_bb));
    lemma_dom_append(b1, da, usable, Label::Else, base.insert(else_bb));
    lemma_advances_append(g, d, b1, da, Label::Else, base.insert(else_bb));
    lemma_dom_append(b2, db, usable, Label::Cont, base.insert(cont_bb));
    lemma_advances_append(g, d, b2, db, Label::Cont, base.insert(cont_bb));
    assert(dc[g.current] == base);
    assert(dc[then_bb] == base.insert(then_bb));
    assert(dc[else_bb] == base.insert(else_bb));
    assert(dc[cont_bb] == base.insert(cont_bb));

    // The branch, and on to the body.
    lemma_dom_emit(b3, dc, usable, branch, ""@);
    lemma_advances_emit(g, d, b3, dc, branch, ""@);
    lemma_dom_position(b4, dc, usable, usable, then_bb);
    lemma_advances_position(g, d, b4, dc, then_bb);
    assert(binds_within(g, branched, none));

    // The body.
    lemma_decls_dom(branched, decls, dc, usable);
    lemma_stays_advances(branched, g2, dc);
    lemma_advances_chain(g, d, branched, dc, g2, dc);
    let d3 = lemma_stmts_dom(g2, stmts, dc, inner);
    lemma_advances_chain(g, d, g2, dc, g3, d3);
    lemma_binds_within_twice(g, branched, g2, none, declared_by_decls(decls));
    lemma_binds_within_twice(g, g2, g3, none.union(declared_by_decls(decls)), declared_by_stmts(stmts));
    assert(none.union(declared_by_decls(decls)).union(declared_by_stmts(stmts)) =~= declared);
    assert(d3[else_bb] == dc[else_bb]);
    assert(d3[cont_bb] == dc[cont_bb]);
    assert(dc[then_bb].subset_of(d3[g3.current]));

    // Out of the body, through the empty else block, to what follows.
    lemma_dom_emit(g3, d3, body_usable, jump, ""@);
    lemma_advances_emit(g, d, g3, d3, jump, ""@);
    lemma_dom_position(j1, d3, body_usable, none, else_bb);
    lemma_advances_position(g, d, j1, d3, else_bb);
    lemma_dom_emit(j2, d3, none, jump, ""@);
    lemma_advances_emit(g, d, j2, d3, jump, ""@);
    assert forall|n: Seq<char>| #[trigger] then_usable.contains(n) implies j3.vars.contains_key(n)
        && j3.vars[n] < j3.code.len() && d3[cont_bb].contains(j3.code[j3.vars[n] as int].block) by {
        assert(usable.contains(n) && !declared.contains(n));
        assert(g3.vars.contains_key(n) == g.vars.contains_key(n));
        assert(j3.code[g.vars[n] as int] == g.code[g.vars[n] as int]);
    }
    lemma_dom_position(j3, d3, none, then_usable, cont_bb);
    lemma_advances_position(g, d, j3, d3, cont_bb);
    assert(binds_within(g, j4, declared_by_stmt(s)));
    d3
}

/// Lowering a `while` keeps what is known and moves on. The block after the
/// loop is dominated by the end of the body, so what the body declares
/// stays usable.
proof fn lemma_while_dom(
    g: GenView,
    cond: ExprView,
    decls: Seq<DeclView>,
    stmts: Seq<StmtView>,
    d: Map<usize, Set<usize>>,
    usable: Set<Seq<char>>,
) -> (d1: Map<usize, Set<usize>>)
    requires
        dom_inv(g, d, usable),
        usable_after_stmt(StmtView::Control(ControlType::While, cond, decls, stmts), usable) is Some,
        lower_stmt(g, StmtView::Control(ControlType::While, cond, decls, stmts)) matches Ok(g1)
            && g1.code.len() <= usize::MAX && g1.blocks.len() <= usize::MAX,
    ensures
        ({
            let s = StmtView::Control(ControlType::While, cond, decls, stmts);
            lower_stmt(g, s) matches Ok(g1) && usable_after_stmt(s, usable) matches Some(
                then_usable,
            ) && dom_inv(g1, d1, then_usable) && advances(g, d, g1, d1) && binds_within(
                g,
                g1,
                declared_by_stmt(s),
            )
        }),
    decreases stmts, 1int,
{
    let s = StmtView::Control(ControlType::While, cond, decls, stmts);
    let loop_bb = g.next_block();
    let after_bb = (loop_bb + 1) as usize;
    let b1 = g.append_block(Label::LoopBody);
    let b2 = b1.append_block(Label::AfterLoop);
    let enter = Inst::Br { target: loop_bb };
    let b3 = b2.emit(enter, ""@);
    let entered = b3.position_at_end(loop_bb);
    let g1 = lower_decls(entered, decls)->Ok_0;
    let g2 = lower_stmts(g1, stmts)->Ok_0;
    let (g3, value) = lower_expr(g2, cond)->Ok_0;
    let test = Inst::Compare { pred: Predicate::Equal, left: value, right: Value::Const(0) };
    let tested = g3.emit(test, "if"@);
    let branch = Inst::CondBr { cond: Value::Temp(g3.next()), then_to: after_bb, else_to: loop_bb };
    let b5 = tested.emit(branch, ""@);
    let done = b5.position_at_end(after_bb);
    assert(lower_stmt(g, s) == Ok::<GenView, CodeGenError>(done));
    lemma_decls_grow(entered, decls);
    lemma_stmts_grow(g1, stmts);
    lemma_expr_grows(g2, cond);
    let inner = scope_decls(decls, usable)->0;
    let then_usable = usable_after_stmts(stmts, inner)->0;
    let declared = declared_by_decls(decls).union(declared_by_stmts(stmts));
    let none = Set::<Seq<char>>::empty();
    let base = d[g.current];

    // The two blocks; nothing is known yet of what dominates the second.
    let da = d.insert(loop_bb, base.insert(loop_bb));
    let db = da.insert(after_bb, set![after_bb]);
    lemma_dom_append(g, d, usable, Label::LoopBody, base.insert(loop_bb));
    lemma_advances_append(g, d, g, d, Label::LoopBody, base.insert(loop_bb));
    lemma_dom_append(b1, da, usable, Label::AfterLoop, set![after_bb]);
    lemma_advances_append(g, d, b1, da, Label::AfterLoop, set![after_bb]);
    assert(db[g.current] == base);
    assert(db[loop_bb] == base.insert(loop_bb));

    // Into the body.
    lemma_dom_emit(b2, db, usable, enter, ""@);
    lemma_advances_emit(g, d, b2, db, enter, ""@);
    lemma_dom_position(b3, db, usable, usable, loop_bb);
    lemma_advances_position(g, d, b3, db, loop_bb);
    assert(binds_within(g, entered, none));

    // The body and the condition.
    lemma_decls_dom(entered, decls, db, usable);
    lemma_stays_advances(entered, g1, db);
    let d2 = lemma_stmts_dom(g1, stmts, db, inner);
    lemma_advances_chain(entered, db, g1, db, g2, d2);
    lemma_expr_dom(g2, cond, d2, then_usable);
    lemma_stays_advances(g2, g3, d2);
    lemma_advances_chain(entered, db, g2, d2, g3, d2);
    lemma_dom_emit(g3, d2, then_usable, test, "if"@);
    lemma_advances_emit(entered, db, g3, d2, test, "if"@);
    lemma_advances_chain(g, d, entered, db, tested, d2);
    lemma_binds_within_twice(g, entered, g1, none, declared_by_decls(decls));
    lemma_binds_within_twice(g, g1, g2, none.union(declared_by_decls(decls)), declared_by_stmts(stmts));
    assert(none.union(declared_by_decls(decls)).union(declared_by_stmts(stmts)) =~= declared);

    // Now the block after the loop is known: it is entered from the end of
    // the body only.
    let latch = tested.current;
    assert(latch == loop_bb || latch >= entered.blocks.len());
    let known = d2[latch].insert(after_bb);
    let d3 = d2.insert(after_bb, known);
    assert forall|t: int| 0 <= t < tested.code.len() implies (#[trigger] tested.code[t]).block
        != after_bb && !tested.code[t].inst.goes_to(after_bb) by {
        if t < g.code.len() {
            assert(tested.code[t] == g.code[t]);
            assert(g.code[t].block < g.blocks.len());
            if g.code[t].inst.goes_to(after_bb) {
                assert(after_bb < g.blocks.len());
            }
        } else if t < entered.code.len() {
            assert(tested.code[t] == entered.code[t]);
        } else {
            if tested.code[t].inst.goes_to(after_bb) {
                assert(after_bb >= entered.blocks.len());
            }
        }
    }
    lemma_dom_redefine(tested, d2, then_usable, after_bb, known);
    lemma_advances_redefine(g, d, tested, d2, after_bb, known);
    assert(d3[latch] == d2[latch]);
    assert(d3[loop_bb] == db[loop_bb]) by {
        assert(d2[loop_bb] == db[loop_bb]);
    }
    assert(db[loop_bb].subset_of(d2[latch]));

    // The branch at the end of the body, and on to what follows.
    lemma_dom_emit(tested, d3, then_usable, branch, ""@);
    lemma_advances_emit(g, d, tested, d3, branch, ""@);
    assert forall|n: Seq<char>| #[trigger] then_usable.contains(n) implies b5.vars.contains_key(n)
        && b5.vars[n] < b5.code.len() && d3[after_bb].contains(b5.code[b5.vars[n] as int].block) by {
        assert(d3[b5.current].contains(b5.code[b5.vars[n] as int].block));
    }
    lemma_dom_position(b5, d3, then_usable, then_usable, after_bb);
    lemma_advances_position(g, d, b5, d3, after_bb);
    d3
}

/// Lowering a statement keeps what is known and moves on.
proof fn lemma_stmt_dom(
    g: GenView,
    s: StmtView,
    d: Map<usize, Set<usize>>,
    usable: Set<Seq<char>>,
) -> (d1: Map<usize, Set<usize>>)
    requires
        dom_inv(g, d, usable),
        usable_after_stmt(s, usable) is Some,
        lower_stmt(g, s) matches Ok(g1) && g1.code.len() <= usize::MAX && g1.blocks.len()
            <= usize::MAX,
    ensures
        lower_stmt(g, s) matches Ok(g1) && usable_after_stmt(s, usable) matches Some(then_usable)
            && dom_inv(g1, d1, then_usable) && advances(g, d, g1, d1) && binds_within(
            g,
            g1,
            declared_by_stmt(s),
        ),
    decreases s, 0int,
{
    match s {
        StmtView::Print(e) => {
            lemma_expr_dom(g, e, d, usable);
            let (g1, value) = lower_expr(g, e)->Ok_0;
            let call = Inst::Call { value };
            lemma_dom_emit(g1, d, usable, call, "tmp"@);
            lemma_stays_emit(g, g1, call, "tmp"@);
            lemma_stays_advances(g, g1.emit(call, "tmp"@), d);
            d
        },
        StmtView::Assign(name, e) => {
            assert(usable.contains(name));
            lemma_expr_dom(g, e, d, usable);
            let (g1, value) = lower_expr(g, e)->Ok_0;
            let store = Inst::Store { slot: g.vars[name], value };
            assert(g1.code[g.vars[name] as int] == g.code[g.vars[name] as int]);
            lemma_dom_emit(g1, d, usable, store, ""@);
            lemma_stays_emit(g, g1, store, ""@);
            lemma_stays_advances(g, g1.emit(store, ""@), d);
            d
        },
        StmtView::Control(ControlType::If, cond, decls, stmts) => lemma_if_dom(
            g,
            cond,
            decls,
            stmts,
            d,
            usable,
        ),
        StmtView::Control(ControlType::While, cond, decls, stmts) => lemma_while_dom(
            g,
            cond,
            decls,
            stmts,
            d,
            usable,
        ),
    }
}

/// Lowering statements keeps what is known and moves on.
proof fn lemma_stmts_dom(
    g: GenView,
    ss: Seq<StmtView>,
    d: Map<usize, Set<usize>>,
    usable: Set<Seq<char>>,
) -> (d1: Map<usize, Set<usize>>)
    requires
        dom_inv(g, d, usable),
        usable_after_stmts(ss, usable) is Some,
        lower_stmts(g, ss) matches Ok(g1) && g1.code.len() <= usize::MAX && g1.blocks.len()
            <= usize::MAX,
    ensures
        lower_stmts(g, ss) matches Ok(g1) && usable_after_stmts(ss, usable) matches Some(
            then_usable,
        ) && dom_inv(g1, d1, then_usable) && advances(g, d, g1, d1) && binds_within(
            g,
            g1,
            declared_by_stmts(ss),
        ),
    decreases ss, 0int,
{
    if ss.len() == 0 {
        d
    } else {
        let g1 = lower_stmt(g, ss[0])->Ok_0;
        let g2 = lower_stmts(g1, ss.drop_first())->Ok_0;
        lemma_stmts_grow(g1, ss.drop_first());
        let d1 = lemma_stmt_dom(g, ss[0], d, usable);
        let usable1 = usable_after_stmt(ss[0], usable)->0;
        let d2 = lemma_stmts_dom(g1, ss.drop_first(), d1, usable1);
        lemma_advances_chain(g, d, g1, d1, g2, d2);
        lemma_binds_within_twice(g, g1, g2, declared_by_stmt(ss[0]), declared_by_stmts(ss.drop_first()));
        d2
    }
}

/// In the function of a program that uses every name where its declaration
/// is sure to have run, every read and write of a slot comes after the step
/// that reserves the slot, in a block that the reserving block dominates.
pub proof fn lemma_slots_dominate(p: ProgramView)
    requires
        block_scoped(p),
        lower_program(p) matches Ok(f) && f.fits(),
    ensures
        lower_program(p) matches Ok(f) && f.slots_dominate(),
{
    let start = entered();
    let none = Set::<Seq<char>>::empty();
    let d0 = Map::<usize, Set<usize>>::empty().insert(0, set![0usize]);
    assert(dom_inv(start, d0, none));
    let g1 = lower_decls(start, p.decls)->Ok_0;
    let g2 = lower_stmts(g1, p.stmts)->Ok_0;
    lemma_stmts_grow(g1, p.stmts);
    lemma_decls_dom(start, p.decls, d0, none);
    let usable = scope_decls(p.decls, none)->0;
    let d2 = lemma_stmts_dom(g1, p.stmts, d0, usable);
    let then_usable = usable_after_stmts(p.stmts, usable)->0;
    lemma_dom_emit(g2, d2, then_usable, Inst::Ret, ""@);
    let code = g2.emit(Inst::Ret, ""@).code;
    assert forall|u: int| 0 <= u < code.len() implies ((#[trigger] code[u]).inst.slot() matches Some(
        s,
    ) ==> s < u && dominates(code, code[s as int].block, code[u].block)) by {
        if let Some(s) = code[u].inst.slot() {
            let a = code[s as int].block;
            let b = code[u].block;
            assert forall|path: Seq<usize>| #[trigger]
                is_path(code, path) && path.last() == b implies path.contains(a) by {
                lemma_known_dominates(code, d2, path, a);
            }
        }
    }
}

} // verus!
