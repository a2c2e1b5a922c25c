//! From a tree back to tokens: the tokens that a tree is written with, and
//! the law that the parser gives every ordered tree back from its tokens.

use crate::lexer::{token_at, RawToken, TokenView};
use crate::parser::decls::{decl_at, decls_at, lemma_decls_at_bounds, DeclView};
use crate::parser::expr::{
    expr_at, expr_run, lemma_expr_at_bounds, lemma_expr_at_ordered, operand_of, operator_of,
    ExprDataView, ExprView, Operation,
};
use crate::parser::precedence::{lemma_items_of_tree, lemma_tree_of_items, Item};
use crate::parser::program::{program_at, ProgramView};
use crate::parser::stmts::{
    control_at, control_head, lemma_stmts_at_bounds, print_at, stmt_at, stmts_at, ControlType,
    StmtView,
};
use crate::parser::var::{type_of, Var};
use crate::parser::SyntaxError;
use vstd::prelude::*;

verus! {

/// The token that a leaf is written as.
pub open spec fn leaf_token(data: ExprDataView) -> TokenView {
    match data {
        ExprDataView::StrLit(s) => TokenView { kind: RawToken::StringLit, text: s, value: 0 },
        ExprDataView::IntLit(n) => TokenView { kind: RawToken::IntLit, text: Seq::empty(), value: n },
        ExprDataView::Name(s) => TokenView { kind: RawToken::Name, text: s, value: 0 },
    }
}

/// The token that an operator is written as.
pub open spec fn operation_token(op: Operation) -> TokenView {
    TokenView::plain(
        match op {
            Operation::Equals => RawToken::Equals,
            Operation::Times => RawToken::Times,
            Operation::Plus => RawToken::Plus,
            Operation::GT => RawToken::GT,
            Operation::LT => RawToken::LT,
        },
    )
}

/// The keyword that a declared type is written as.
pub open spec fn type_token(ty: Var) -> TokenView {
    TokenView::plain(
        match ty {
            Var::Int => RawToken::Int,
            Var::Str => RawToken::Str,
            Var::Bool => RawToken::Bool,
        },
    )
}

/// The keyword that a control statement starts with.
pub open spec fn control_token(kind: ControlType) -> TokenView {
    TokenView::plain(
        match kind {
            ControlType::If => RawToken::If,
            ControlType::While => RawToken::While,
        },
    )
}

/// The token that a name is written as.
pub open spec fn name_token(name: Seq<char>) -> TokenView {
    TokenView { kind: RawToken::Name, text: name, value: 0 }
}

/// The tokens of an expression: its leaves and operators from left to
/// right.
pub open spec fn expr_tokens(e: ExprView) -> Seq<TokenView>
    decreases e,
{
    match e {
        ExprView::Unary(data) => seq![leaf_token(data)],
        ExprView::Binary(left, right, op) => expr_tokens(*left) + seq![operation_token(op)]
            + expr_tokens(*right),
    }
}

/// The tokens of a declaration: `TYPE Name = Expr`.
pub open spec fn decl_tokens(d: DeclView) -> Seq<TokenView> {
    seq![type_token(d.ty), name_token(d.name), TokenView::plain(RawToken::Assign)] + expr_tokens(
        d.expr,
    )
}

/// The tokens of declarations, one after another.
pub open spec fn decls_tokens(ds: Seq<DeclView>) -> Seq<TokenView>
    decreases ds.len(),
{
    if ds.len() == 0 {
        Seq::empty()
    } else {
        decl_tokens(ds[0]) + decls_tokens(ds.drop_first())
    }
}

/// The tokens of a statement: `print ( Expr )`, `Name = Expr`, or
/// `if ( Expr ) { … }` or `while ( Expr ) { … }` with the tokens of the body
/// between the braces.
pub open spec fn stmt_tokens(s: StmtView) -> Seq<TokenView>
    decreases s,
{
    match s {
        StmtView::Print(e) => seq![
            TokenView::plain(RawToken::Print),
            TokenView::plain(RawToken::OpenParen),
        ] + expr_tokens(e) + seq![TokenView::plain(RawToken::CloseParen)],
        StmtView::Assign(name, e) => seq![name_token(name), TokenView::plain(RawToken::Assign)]
            + expr_tokens(e),
        StmtView::Control(kind, cond, decls, stmts) => seq![
            control_token(kind),
            TokenView::plain(RawToken::OpenParen),
        ] + expr_tokens(cond) + seq![
            TokenView::plain(RawToken::CloseParen),
            TokenView::plain(RawToken::OpenBrace),
        ] + decls_tokens(decls) + stmts_tokens(stmts) + seq![TokenView::plain(RawToken::CloseBrace)],
    }
}

/// The tokens of statements, one after another.
pub open spec fn stmts_tokens(ss: Seq<StmtView>) -> Seq<TokenView>
    decreases ss,
{
    if ss.len() == 0 {
        Seq::empty()
    } else {
        stmt_tokens(ss[0]) + stmts_tokens(ss.drop_first())
    }
}

/// The tokens of a program, closed by the end of input.
pub open spec fn program_tokens(p: ProgramView) -> Seq<TokenView> {
    (decls_tokens(p.decls) + stmts_tokens(p.stmts)).push(TokenView::plain(RawToken::EOF))
}

/// Whether every expression of the declarations is ordered by precedence.
pub open spec fn decls_ordered(ds: Seq<DeclView>) -> bool {
    forall|i: int| 0 <= i < ds.len() ==> (#[trigger] ds[i]).expr.precedence_ordered()
}

/// Whether every expression of the statement is ordered by precedence.
pub open spec fn stmt_ordered(s: StmtView) -> bool
    decreases s,
{
    match s {
        StmtView::Print(e) => e.precedence_ordered(),
        StmtView::Assign(_, e) => e.precedence_ordered(),
        StmtView::Control(_, cond, decls, stmts) => cond.precedence_ordered() && decls_ordered(decls)
            && stmts_ordered(stmts),
    }
}

/// Whether every expression of the statements is ordered by precedence.
pub open spec fn stmts_ordered(ss: Seq<StmtView>) -> bool
    decreases ss,
{
    if ss.len() == 0 {
        true
    } else {
        stmt_ordered(ss[0]) && stmts_ordered(ss.drop_first())
    }
}

/// Whether every expression of the program is ordered by precedence.
pub open spec fn program_ordered(p: ProgramView) -> bool {
    decls_ordered(p.decls) && stmts_ordered(p.stmts)
}

/// Whether the stream holds `tokens` from position `p` on.
pub open spec fn holds_at(ts: Seq<TokenView>, p: int, tokens: Seq<TokenView>) -> bool {
    &&& 0 <= p
    &&& p + tokens.len() <= ts.len()
    &&& forall|i: int| 0 <= i < tokens.len() ==> ts[p + i] == #[trigger] tokens[i]
}

/// A stream that holds two runs of tokens one after the other holds each of
/// them.
pub proof fn lemma_holds_split(ts: Seq<TokenView>, p: int, a: Seq<TokenView>, b: Seq<TokenView>)
    requires
        holds_at(ts, p, a + b),
    ensures
        holds_at(ts, p, a),
        holds_at(ts, p + a.len(), b),
{
    let both = a + b;
    assert forall|i: int| 0 <= i < a.len() implies ts[p + i] == #[trigger] a[i] by {
        assert(both[i] == a[i]);
    }
    assert forall|i: int| 0 <= i < b.len() implies ts[p + a.len() + i] == #[trigger] b[i] by {
        assert(both[a.len() + i] == b[i]);
    }
}

/// The token that an item of a run is written as.
pub open spec fn item_token(it: Item) -> TokenView {
    match it {
        Item::Operand(data) => leaf_token(data),
        Item::Operator(op) => operation_token(op),
    }
}

/// The tokens of an expression are the tokens of the items of its run.
proof fn lemma_expr_tokens(e: ExprView)
    ensures
        expr_tokens(e).len() == e.items().len(),
        forall|i: int|
            0 <= i < e.items().len() ==> expr_tokens(e)[i] == item_token(#[trigger] e.items()[i]),
    decreases e,
{
    match e {
        ExprView::Unary(_) => {},
        ExprView::Binary(left, right, op) => {
            lemma_expr_tokens(*left);
            lemma_expr_tokens(*right);
            let l = left.items();
            let r = right.items();
            let all = e.items();
            let tokens = expr_tokens(e);
            assert forall|i: int| 0 <= i < all.len() implies tokens[i] == item_token(
                #[trigger] all[i],
            ) by {
                if i < l.len() {
                    assert(all[i] == l[i]);
                    assert(tokens[i] == expr_tokens(*left)[i]);
                } else if i > l.len() {
                    assert(all[i] == r[i - l.len() - 1]);
                    assert(tokens[i] == expr_tokens(*right)[i - l.len() - 1]);
                }
            }
        },
    }
}

/// A stream that holds the tokens of items that take turns, and then a
/// token that is out of turn, has exactly these items as its run.
proof fn lemma_run_of_items(ts: Seq<TokenView>, p: int, items: Seq<Item>, want_operator: bool)
    requires
        0 <= p,
        p + items.len() <= ts.len(),
        forall|i: int| 0 <= i < items.len() ==> ts[p + i] == item_token(#[trigger] items[i]),
        forall|i: int|
            0 <= i < items.len() ==> ((#[trigger] items[i]) is Operator <==> (i % 2 == 0)
                == want_operator),
        if (items.len() % 2 == 0) == want_operator {
            operator_of(token_at(ts, p + items.len())) is None
        } else {
            operand_of(token_at(ts, p + items.len())) is None
        },
    ensures
        expr_run(ts, p, want_operator) == items,
    decreases items.len(),
{
    if items.len() == 0 {
        assert(expr_run(ts, p, want_operator) =~= items);
    } else {
        let rest = items.drop_first();
        assert(ts[p + 0] == item_token(items[0]));
        assert forall|i: int| 0 <= i < rest.len() implies ts[p + 1 + i] == item_token(
            #[trigger] rest[i],
        ) by {
            assert(rest[i] == items[i + 1]);
            assert(ts[p + (i + 1)] == item_token(items[i + 1]));
        }
        assert forall|i: int| 0 <= i < rest.len() implies ((#[trigger] rest[i]) is Operator <==> (i
            % 2 == 0) == !want_operator) by {
            assert(rest[i] == items[i + 1]);
        }
        lemma_run_of_items(ts, p + 1, rest, !want_operator);
        assert(expr_run(ts, p, want_operator) =~= items);
    }
}

/// The parser gives an ordered expression back from its tokens, if the token
/// after them is no operator.
pub proof fn lemma_expr_read(ts: Seq<TokenView>, p: int, e: ExprView)
    requires
        holds_at(ts, p, expr_tokens(e)),
        e.precedence_ordered(),
        operator_of(token_at(ts, p + expr_tokens(e).len())) is None,
    ensures
        expr_at(ts, p) == Some((e, p + expr_tokens(e).len())),
{
    let items = e.items();
    lemma_expr_tokens(e);
    lemma_items_of_tree(e);
    assert forall|i: int| 0 <= i < items.len() implies ts[p + i] == item_token(
        #[trigger] items[i],
    ) by {
        assert(ts[p + i] == expr_tokens(e)[i]);
    }
    lemma_run_of_items(ts, p, items, false);
    lemma_tree_of_items(e);
}

/// The parser gives a declaration with an ordered expression back from its
/// tokens, if the token after them is no operator.
pub proof fn lemma_decl_read(ts: Seq<TokenView>, p: int, d: DeclView)
    requires
        holds_at(ts, p, decl_tokens(d)),
        d.expr.precedence_ordered(),
        operator_of(token_at(ts, p + decl_tokens(d).len())) is None,
    ensures
        decl_at(ts, p) == Ok::<_, SyntaxError>((d, p + decl_tokens(d).len())),
{
    let head = seq![type_token(d.ty), name_token(d.name), TokenView::plain(RawToken::Assign)];
    lemma_holds_split(ts, p, head, expr_tokens(d.expr));
    assert(ts[p + 0] == head[0]);
    assert(ts[p + 1] == head[1]);
    assert(ts[p + 2] == head[2]);
    lemma_expr_read(ts, p + 3, d.expr);
}

/// The first token of declarations that are not empty is a type keyword.
proof fn lemma_decls_start(ds: Seq<DeclView>)
    requires
        ds.len() > 0,
    ensures
        decls_tokens(ds).len() > 0,
        decls_tokens(ds)[0] == type_token(ds[0].ty),
{
}

/// The parser gives declarations with ordered expressions back from their
/// tokens, if the token after them is neither a type keyword nor an operator.
pub proof fn lemma_decls_read(ts: Seq<TokenView>, p: int, ds: Seq<DeclView>)
    requires
        holds_at(ts, p, decls_tokens(ds)),
        decls_ordered(ds),
        type_of(token_at(ts, p + decls_tokens(ds).len())) is None,
        operator_of(token_at(ts, p + decls_tokens(ds).len())) is None,
    ensures
        decls_at(ts, p) == Ok::<_, SyntaxError>((ds, p + decls_tokens(ds).len())),
    decreases ds.len(),
{
    if ds.len() == 0 {
        assert(ds =~= Seq::<DeclView>::empty());
    } else {
        let first = decl_tokens(ds[0]);
        let rest = ds.drop_first();
        let next = p + first.len();
        lemma_holds_split(ts, p, first, decls_tokens(rest));
        assert(decls_ordered(rest)) by {
            assert forall|i: int| 0 <= i < rest.len() implies (
            #[trigger] rest[i]).expr.precedence_ordered() by {
                assert(rest[i] == ds[i + 1]);
            }
        }
        if rest.len() > 0 {
            lemma_decls_start(rest);
            assert(ts[next + 0] == decls_tokens(rest)[0]);
        }
        assert(ts[p + 0] == first[0]);
        lemma_decl_read(ts, p, ds[0]);
        lemma_decls_read(ts, next, rest);
        assert(seq![ds[0]] + rest =~= ds);
    }
}

/// Whether a token closes a block of statements: `}` or the end of input.
pub open spec fn closes(t: TokenView) -> bool {
    t.kind == RawToken::CloseBrace || t.kind == RawToken::EOF
}

/// No statement starts at a token that closes a block.
proof fn lemma_no_stmt(ts: Seq<TokenView>, p: int)
    requires
        closes(token_at(ts, p)),
    ensures
        stmt_at(ts, p) == Ok::<Option<(StmtView, int)>, SyntaxError>(None),
{
}

/// The first token of a statement is `print`, `if`, `while` or a name.
proof fn lemma_stmt_start(s: StmtView)
    ensures
        stmt_tokens(s).len() > 0,
        ({
            let kind = stmt_tokens(s)[0].kind;
            kind == RawToken::Print || kind == RawToken::If || kind == RawToken::While || kind
                == RawToken::Name
        }),
{
}

/// The first token of statements that are not empty is the first token of
/// the first of them.
proof fn lemma_stmts_start(ss: Seq<StmtView>)
    requires
        ss.len() > 0,
    ensures
        stmts_tokens(ss).len() > 0,
        stmts_tokens(ss)[0] == stmt_tokens(ss[0])[0],
{
    lemma_stmt_start(ss[0]);
}

/// The parser gives a statement with ordered expressions back from its
/// tokens, if the token after them is no operator.
pub proof fn lemma_stmt_read(ts: Seq<TokenView>, p: int, s: StmtView)
    requires
        holds_at(ts, p, stmt_tokens(s)),
        stmt_ordered(s),
        operator_of(token_at(ts, p + stmt_tokens(s).len())) is None,
    ensures
        stmt_at(ts, p) == Ok::<_, SyntaxError>(Some((s, p + stmt_tokens(s).len()))),
    decreases s, 0int,
{
    match s {
        StmtView::Print(e) => {
            let head = seq![TokenView::plain(RawToken::Print), TokenView::plain(RawToken::OpenParen)];
            let tail = seq![TokenView::plain(RawToken::CloseParen)];
            lemma_holds_split(ts, p, head + expr_tokens(e), tail);
            lemma_holds_split(ts, p, head, expr_tokens(e));
            let close = p + 2 + expr_tokens(e).len();
            assert(ts[p + 0] == head[0]);
            assert(ts[p + 1] == head[1]);
            assert(ts[close + 0] == tail[0]);
            lemma_expr_read(ts, p + 2, e);
        },
        StmtView::Assign(name, e) => {
            let head = seq![name_token(name), TokenView::plain(RawToken::Assign)];
            lemma_holds_split(ts, p, head, expr_tokens(e));
            assert(ts[p + 0] == head[0]);
            assert(ts[p + 1] == head[1]);
            lemma_expr_read(ts, p + 2, e);
        },
        StmtView::Control(kind, cond, decls, stmts) => {
            lemma_control_read(ts, p, kind, cond, decls, stmts);
        },
    }
}

/// The parser gives a control statement with ordered expressions back from
/// its tokens.
proof fn lemma_control_read(
    ts: Seq<TokenView>,
    p: int,
    kind: ControlType,
    cond: ExprView,
    decls: Seq<DeclView>,
    stmts: Seq<StmtView>,
)
    requires
        holds_at(ts, p, stmt_tokens(StmtView::Control(kind, cond, decls, stmts))),
        stmt_ordered(StmtView::Control(kind, cond, decls, stmts)),
    ensures
        stmt_at(ts, p) == Ok::<_, SyntaxError>(
            Some(
                (
                    StmtView::Control(kind, cond, decls, stmts),
                    p + stmt_tokens(StmtView::Control(kind, cond, decls, stmts)).len(),
                ),
            ),
        ),
    decreases stmts, 1int,
{
    let s = StmtView::Control(kind, cond, decls, stmts);
    let head = seq![control_token(kind), TokenView::plain(RawToken::OpenParen)];
    let mid = seq![TokenView::plain(RawToken::CloseParen), TokenView::plain(RawToken::OpenBrace)];
    let tail = seq![TokenView::plain(RawToken::CloseBrace)];
    let c = expr_tokens(cond);
    let d = decls_tokens(decls);
    let b = stmts_tokens(stmts);
    assert(stmt_tokens(s) == head + c + mid + d + b + tail);
    lemma_holds_split(ts, p, head + c + mid + d + b, tail);
    lemma_holds_split(ts, p, head + c + mid + d, b);
    lemma_holds_split(ts, p, head + c + mid, d);
    lemma_holds_split(ts, p, head + c, mid);
    lemma_holds_split(ts, p, head, c);
    let close = p + 2 + c.len();
    let body = close + 2;
    let inner = body + d.len();
    let end = inner + b.len();
    assert(ts[p + 0] == head[0]);
    assert(ts[p + 1] == head[1]);
    assert(ts[close + 0] == mid[0]);
    assert(ts[close + 1] == mid[1]);
    assert(ts[end + 0] == tail[0]);
    lemma_expr_read(ts, p + 2, cond);
    assert(control_head(ts, p, close));
    if stmts.len() > 0 {
        lemma_stmts_start(stmts);
        lemma_stmt_start(stmts[0]);
        assert(ts[inner + 0] == b[0]);
    }
    lemma_decls_read(ts, body, decls);
    lemma_stmts_read(ts, inner, stmts);
    assert(print_at(ts, p) is None);
}

/// The parser gives statements with ordered expressions back from their
/// tokens, if the token after them closes the block.
pub proof fn lemma_stmts_read(ts: Seq<TokenView>, p: int, ss: Seq<StmtView>)
    requires
        holds_at(ts, p, stmts_tokens(ss)),
        stmts_ordered(ss),
        closes(token_at(ts, p + stmts_tokens(ss).len())),
    ensures
        stmts_at(ts, p) == Ok::<_, SyntaxError>((ss, p + stmts_tokens(ss).len())),
    decreases ss, 0int,
{
    if ss.len() == 0 {
        lemma_no_stmt(ts, p);
        assert(ss =~= Seq::<StmtView>::empty());
    } else {
        let first = stmt_tokens(ss[0]);
        let rest = ss.drop_first();
        let next = p + first.len();
        lemma_holds_split(ts, p, first, stmts_tokens(rest));
        lemma_stmt_start(ss[0]);
        if rest.len() > 0 {
            lemma_stmts_start(rest);
            lemma_stmt_start(rest[0]);
            assert(ts[next + 0] == stmts_tokens(rest)[0]);
        }
        lemma_stmt_read(ts, p, ss[0]);
        lemma_stmts_read(ts, next, rest);
        assert(seq![ss[0]] + rest =~= ss);
    }
}

/// The parser gives a program with ordered expressions back from its
/// tokens.
pub proof fn lemma_program_read(p: ProgramView)
    requires
        program_ordered(p),
    ensures
        program_at(program_tokens(p), 0) == Ok::<_, SyntaxError>(
            (p, program_tokens(p).len() - 1),
        ),
{
    let ts = program_tokens(p);
    let d = decls_tokens(p.decls);
    let b = stmts_tokens(p.stmts);
    let end = d.len() + b.len();
    assert(holds_at(ts, 0, d + b)) by {
        assert forall|i: int| 0 <= i < (d + b).len() implies ts[0 + i] == #[trigger] (d + b)[i] by {}
    }
    lemma_holds_split(ts, 0, d, b);
    assert(ts[end as int] == TokenView::plain(RawToken::EOF));
    if p.stmts.len() > 0 {
        lemma_stmts_start(p.stmts);
        lemma_stmt_start(p.stmts[0]);
        assert(ts[d.len() as int + 0] == b[0]);
    }
    lemma_decls_read(ts, 0, p.decls);
    lemma_stmts_read(ts, d.len() as int, p.stmts);
}

/// Every expression of the declarations that the parser gives is ordered by
/// precedence.
pub proof fn lemma_decls_at_ordered(ts: Seq<TokenView>, p: int)
    ensures
        decls_at(ts, p) matches Ok((ds, _)) ==> decls_ordered(ds),
    decreases ts.len() - p,
{
    if type_of(token_at(ts, p)) is Some {
        if let Ok((decl, next)) = decl_at(ts, p) {
            lemma_expr_at_bounds(ts, p + 3);
            lemma_expr_at_ordered(ts, p + 3);
            lemma_decls_at_ordered(ts, next);
            if let Ok((rest, end)) = decls_at(ts, next) {
                let ds = seq![decl] + rest;
                assert forall|i: int| 0 <= i < ds.len() implies (
                #[trigger] ds[i]).expr.precedence_ordered() by {
                    if i > 0 {
                        assert(ds[i] == rest[i - 1]);
                    }
                }
            }
        }
    }
}

/// Every expression of the statements that the parser gives is ordered by
/// precedence.
pub proof fn lemma_stmts_at_ordered(ts: Seq<TokenView>, p: int)
    requires
        0 <= p <= ts.len(),
    ensures
        stmt_at(ts, p) matches Ok(Some((s, _))) ==> stmt_ordered(s),
        stmts_at(ts, p) matches Ok((ss, _)) ==> stmts_ordered(ss),
    decreases ts.len() - p,
{
    lemma_expr_at_bounds(ts, p + 2);
    lemma_expr_at_ordered(ts, p + 2);
    if let Some((cond, close)) = expr_at(ts, p + 2) {
        if control_head(ts, p, close) {
            lemma_decls_at_bounds(ts, close + 2);
            lemma_decls_at_ordered(ts, close + 2);
            if let Ok((decls, mid)) = decls_at(ts, close + 2) {
                lemma_stmts_at_ordered(ts, mid);
            }
        }
    }
    lemma_stmts_at_bounds(ts, p);
    if let Ok(Some((stmt, next))) = stmt_at(ts, p) {
        assert(stmt_ordered(stmt)) by {
            if print_at(ts, p) is None {
                if let Ok(Some(found)) = control_at(ts, p) {
                    assert(stmt == found.0);
                }
            }
        }
        lemma_stmts_at_ordered(ts, next);
        if let Ok((rest, end)) = stmts_at(ts, next) {
            let ss = seq![stmt] + rest;
            assert(ss[0] == stmt);
            assert(ss.drop_first() =~= rest);
            assert(stmts_ordered(ss));
        }
    }
}

/// The round trip between tokens and trees: the tokens of a program that the
/// parser gives are parsed to that same program, and so writing it as tokens
/// and parsing it again changes nothing.
pub proof fn lemma_round_trip(ts: Seq<TokenView>, p: int)
    requires
        0 <= p <= ts.len(),
    ensures
        program_at(ts, p) matches Ok((program, _)) ==> program_at(program_tokens(program), 0)
            == Ok::<_, SyntaxError>((program, program_tokens(program).len() - 1)),
{
    if let Ok((program, _)) = program_at(ts, p) {
        lemma_decls_at_ordered(ts, p);
        lemma_decls_at_bounds(ts, p);
        let mid = decls_at(ts, p)->Ok_0.1;
        lemma_stmts_at_ordered(ts, mid);
        lemma_program_read(program);
    }
}

} // verus!
