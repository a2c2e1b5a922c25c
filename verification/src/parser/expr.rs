//! Expressions: the tree, the tree that precedence gives to a run of tokens,
//! and the two-stack parser that builds it.

use crate::lexer::{terminated, RawToken, Token, TokenView};
use crate::parser::precedence::{
    alternating, expr_tree, lemma_expr_tree_ordered, lemma_tree_of_items, Item,
};
use crate::parser::pretty::{expr_text, leaf_text, operation_text};
use crate::text::int_to_string;
use vstd::string::StringExecFns;
use vstd::prelude::*;

verus! {

/// A binary operator of the source language.
#[derive(Debug, Clone, Copy, PartialEq, Eq, Structural)]
pub enum Operation {
    Equals,
    Times,
    Plus,
    GT,
    LT,
}

/// What a leaf of an expression holds.
#[derive(Debug, Clone, PartialEq, Eq)]
pub enum ExprData {
    StrLit(String),
    IntLit(i16),
    Name(String),
}

/// An expression: a leaf, or an operator applied to a left and a right
/// operand.
#[derive(Debug, PartialEq, Eq)]
pub enum Expr {
    Unary(ExprData),
    Binary(Box<Expr>, Box<Expr>, Operation),
}

/// The mathematical value of a leaf.
pub enum ExprDataView {
    StrLit(Seq<char>),
    IntLit(i16),
    Name(Seq<char>),
}

/// The mathematical value of an expression.
pub enum ExprView {
    Unary(ExprDataView),
    Binary(Box<ExprView>, Box<ExprView>, Operation),
}

impl View for ExprData {
    type V = ExprDataView;

    open spec fn view(&self) -> ExprDataView {
        match self {
            ExprData::StrLit(s) => ExprDataView::StrLit(s@),
            ExprData::IntLit(n) => ExprDataView::IntLit(*n),
            ExprData::Name(s) => ExprDataView::Name(s@),
        }
    }
}

impl Expr {
    /// The mathematical value of this expression.
    pub open spec fn as_view(self) -> ExprView
        decreases self,
    {
        match self {
            Expr::Unary(data) => ExprView::Unary(data@),
            Expr::Binary(left, right, op) => ExprView::Binary(
                Box::new((*left).as_view()),
                Box::new((*right).as_view()),
                op,
            ),
        }
    }
}

impl View for Expr {
    type V = ExprView;

    open spec fn view(&self) -> ExprView {
        self.as_view()
    }
}

impl DeepView for Expr {
    type V = ExprView;

    open spec fn deep_view(&self) -> ExprView {
        self.view()
    }
}

/// How tightly an operator binds; a larger number binds tighter.
pub open spec fn priority(op: Operation) -> int {
    match op {
        Operation::Times => 3,
        Operation::Plus => 2,
        Operation::Equals => 1,
        Operation::GT => 1,
        Operation::LT => 1,
    }
}

/// The leaf that an operand token stands for.
pub open spec fn operand_of(t: TokenView) -> Option<ExprDataView> {
    match t.kind {
        RawToken::StringLit => Some(ExprDataView::StrLit(t.text)),
        RawToken::IntLit => Some(ExprDataView::IntLit(t.value)),
        RawToken::Name => Some(ExprDataView::Name(t.text)),
        _ => None,
    }
}

/// The operator that an operator token stands for.
pub open spec fn operator_of(t: TokenView) -> Option<Operation> {
    match t.kind {
        RawToken::Times => Some(Operation::Times),
        RawToken::Plus => Some(Operation::Plus),
        RawToken::Equals => Some(Operation::Equals),
        RawToken::GT => Some(Operation::GT),
        RawToken::LT => Some(Operation::LT),
        _ => None,
    }
}

/// How tightly `op` binds; a larger number binds tighter.
pub fn get_priority(op: &Operation) -> (p: u8)
    ensures
        p == priority(*op),
{
    match op {
        Operation::Times => 3,
        Operation::Plus => 2,
        Operation::Equals => 1,
        Operation::GT => 1,
        Operation::LT => 1,
    }
}

impl Operation {
    /// The operator that `tok` stands for, if it is an operator token.
    pub fn from_token(tok: &Token) -> (r: Option<Operation>)
        ensures
            r == operator_of(tok@),
    {
        match tok {
            Token::Times => Some(Operation::Times),
            Token::Plus => Some(Operation::Plus),
            Token::Equals => Some(Operation::Equals),
            Token::GT => Some(Operation::GT),
            Token::LT => Some(Operation::LT),
            _ => None,
        }
    }
}

/// The operand stack after its two topmost expressions have been joined
/// under `op`: the lower one becomes the left operand, the top one the right.
pub open spec fn combined(exprs: Seq<ExprView>, op: Operation) -> Seq<ExprView>
    recommends
        exprs.len() >= 2,
{
    exprs.subrange(0, exprs.len() - 2).push(
        ExprView::Binary(Box::new(exprs[exprs.len() - 2]), Box::new(exprs[exprs.len() - 1]), op),
    )
}

/// The two stacks after every operator on top that binds at least as tightly
/// as `bound` has been joined with its operands.
pub open spec fn settled(exprs: Seq<ExprView>, ops: Seq<Operation>, bound: int) -> (
    Seq<ExprView>,
    Seq<Operation>,
)
    decreases ops.len(),
{
    if ops.len() >= 1 && exprs.len() >= 2 && bound <= priority(ops.last()) {
        settled(combined(exprs, ops.last()), ops.drop_last(), bound)
    } else {
        (exprs, ops)
    }
}

/// Joins the two topmost operands under the topmost operator.
pub fn combine_expression(expr_stack: &mut Vec<Expr>, op_stack: &mut Vec<Operation>)
    requires
        old(expr_stack).len() >= 2,
        old(op_stack).len() >= 1,
    ensures
        final(op_stack)@ == old(op_stack)@.drop_last(),
        final(expr_stack).deep_view() == combined(
            old(expr_stack).deep_view(),
            old(op_stack)@.last(),
        ),
{
    let op = op_stack.pop().unwrap();
    let operand2 = expr_stack.pop().unwrap();
    let operand1 = expr_stack.pop().unwrap();
    let expr = Expr::Binary(Box::new(operand1), Box::new(operand2), op);
    expr_stack.push(expr);
    assert(expr_stack.deep_view() =~= combined(old(expr_stack).deep_view(), old(op_stack)@.last()));
}

/// Makes room for the incoming operator `tok`: joins what binds at least as
/// tightly, then puts `tok` on the operator stack.
pub fn perform_operation(expr_stack: &mut Vec<Expr>, op_stack: &mut Vec<Operation>, tok: Operation)
    requires
        old(expr_stack).len() > old(op_stack).len(),
    ensures
        final(expr_stack).deep_view() == settled(
            old(expr_stack).deep_view(),
            old(op_stack)@,
            priority(tok),
        ).0,
        final(op_stack)@ == settled(old(expr_stack).deep_view(), old(op_stack)@, priority(tok)).1.push(
            tok,
        ),
{
    while op_stack.len() >= 1 && get_priority(&tok) <= get_priority(&op_stack[op_stack.len() - 1])
        invariant
            expr_stack.len() > op_stack.len(),
            settled(expr_stack.deep_view(), op_stack@, priority(tok)) == settled(
                old(expr_stack).deep_view(),
                old(op_stack)@,
                priority(tok),
            ),
        decreases op_stack.len(),
    {
        let ghost before = expr_stack.deep_view();
        combine_expression(expr_stack, op_stack);
        assert(expr_stack.deep_view().len() == before.len() - 1);
    }
    op_stack.push(tok)
}

/// The longest run of tokens from position `p` in which operands and
/// operators take turns, beginning with an operator if `want_operator` holds
/// and with an operand if not.
pub open spec fn expr_run(ts: Seq<TokenView>, p: int, want_operator: bool) -> Seq<Item>
    decreases ts.len() - p,
{
    if p < 0 || p >= ts.len() {
        Seq::empty()
    } else {
        match (want_operator, operand_of(ts[p]), operator_of(ts[p])) {
            (false, Some(data), _) => seq![Item::Operand(data)] + expr_run(ts, p + 1, true),
            (true, _, Some(op)) => seq![Item::Operator(op)] + expr_run(ts, p + 1, false),
            _ => Seq::empty(),
        }
    }
}

/// The expression that starts at position `p`, with the position after it.
/// The parser takes the longest run of operands and operators that take
/// turns. There is no expression when the run is empty or ends with an
/// operator.
pub open spec fn expr_at(ts: Seq<TokenView>, p: int) -> Option<(ExprView, int)> {
    let run = expr_run(ts, p, false);
    if run.len() % 2 == 1 {
        Some((expr_tree(run), p + run.len()))
    } else {
        None
    }
}

/// A run stays inside the stream, and in a terminated stream it ends before
/// the last token.
pub proof fn lemma_expr_run_bounds(ts: Seq<TokenView>, p: int, want_operator: bool)
    requires
        0 <= p,
    ensures
        p + expr_run(ts, p, want_operator).len() <= ts.len() || expr_run(
            ts,
            p,
            want_operator,
        ).len() == 0,
        terminated(ts) && p < ts.len() ==> p + expr_run(ts, p, want_operator).len() < ts.len(),
    decreases ts.len() - p,
{
    if p < ts.len() {
        lemma_expr_run_bounds(ts, p + 1, !want_operator);
    }
}

/// An expression holds at least one token and ends inside the stream; in a
/// terminated stream it ends before the last token.
pub proof fn lemma_expr_at_bounds(ts: Seq<TokenView>, p: int)
    ensures
        expr_at(ts, p) matches Some((_, next)) ==> p < next <= ts.len() && 0 <= p,
        terminated(ts) ==> (expr_at(ts, p) matches Some((_, next)) ==> next < ts.len()),
{
    if 0 <= p {
        lemma_expr_run_bounds(ts, p, false);
    }
}

/// In a run, operands and operators take turns.
pub proof fn lemma_expr_run_turns(ts: Seq<TokenView>, p: int, want_operator: bool)
    ensures
        forall|i: int|
            0 <= i < expr_run(ts, p, want_operator).len() ==> ((#[trigger] expr_run(
                ts,
                p,
                want_operator,
            )[i]) is Operator <==> (i % 2 == 0) == want_operator),
    decreases ts.len() - p,
{
    let run = expr_run(ts, p, want_operator);
    if 0 <= p < ts.len() && run.len() > 0 {
        lemma_expr_run_turns(ts, p + 1, !want_operator);
        let rest = expr_run(ts, p + 1, !want_operator);
        assert forall|i: int| 0 <= i < run.len() implies ((#[trigger] run[i]) is Operator <==> (i % 2
            == 0) == want_operator) by {
            if i > 0 {
                assert(run[i] == rest[i - 1]);
            }
        }
    }
}

/// Every expression that the parser gives is ordered by precedence: at each
/// of its operators, the root of the left operand binds at least as tightly
/// as the operator, and the root of the right operand binds strictly
/// tighter. So operators of equal priority group to the left.
pub proof fn lemma_expr_at_ordered(ts: Seq<TokenView>, p: int)
    ensures
        expr_at(ts, p) matches Some((tree, _)) ==> tree.precedence_ordered(),
{
    let run = expr_run(ts, p, false);
    if run.len() % 2 == 1 {
        lemma_expr_run_turns(ts, p, false);
        assert(alternating(run));
        lemma_expr_tree_ordered(run);
    }
}

/// What the two stacks hold, read from bottom to top: the runs of the
/// operands with the operators between them.
spec fn stack_items(exprs: Seq<ExprView>, ops: Seq<Operation>) -> Seq<Item>
    decreases exprs.len() + ops.len(),
{
    if exprs.len() == 0 {
        Seq::empty()
    } else if ops.len() >= exprs.len() {
        stack_items(exprs, ops.drop_last()) + seq![Item::Operator(ops.last())]
    } else {
        stack_items(exprs.drop_last(), ops) + exprs.last().items()
    }
}

/// The two stacks are ordered when every operand is an ordered tree, the
/// operators bind tighter from bottom to top, and each operator binds no
/// tighter than the operand below it and looser than the operand above it.
#[verifier::opaque]
spec fn stack_ordered(exprs: Seq<ExprView>, ops: Seq<Operation>) -> bool {
    &&& forall|i: int| 0 <= i < exprs.len() ==> (#[trigger] exprs[i]).precedence_ordered()
    &&& forall|i: int, j: int|
        0 <= i < j < ops.len() ==> priority(#[trigger] ops[i]) < priority(#[trigger] ops[j])
    &&& forall|i: int|
        0 <= i < ops.len() && i < exprs.len() ==> exprs[i].root_priority() >= priority(
            #[trigger] ops[i],
        )
    &&& forall|j: int|
        1 <= j < exprs.len() && j - 1 < ops.len() ==> (#[trigger] exprs[j]).root_priority()
            > priority(ops[j - 1])
}

/// Joining the two topmost operands keeps the stacks ordered and what they
/// hold the same.
proof fn lemma_combined(exprs: Seq<ExprView>, ops: Seq<Operation>)
    requires
        stack_ordered(exprs, ops),
        exprs.len() == ops.len() + 1,
        ops.len() >= 1,
    ensures
        stack_ordered(combined(exprs, ops.last()), ops.drop_last()),
        stack_items(combined(exprs, ops.last()), ops.drop_last()) == stack_items(exprs, ops),
        combined(exprs, ops.last()).len() == exprs.len() - 1,
        combined(exprs, ops.last()).last().root_priority() == priority(ops.last()),
{
    reveal(stack_ordered);
    let n = exprs.len() as int;
    let after = combined(exprs, ops.last());
    let fewer = ops.drop_last();
    let lower = exprs[n - 2];
    let upper = exprs[n - 1];
    assert(upper.root_priority() > priority(ops[n - 2]));
    assert(lower.root_priority() >= priority(ops[n - 2]));
    assert(after.last().precedence_ordered());
    assert forall|i: int| 0 <= i < after.len() implies (#[trigger] after[i]).precedence_ordered() by {
        if i < n - 2 {
            assert(after[i] == exprs[i]);
        }
    }
    assert forall|j: int| 1 <= j < after.len() && j - 1 < fewer.len() implies (
    #[trigger] after[j]).root_priority() > priority(fewer[j - 1]) by {
        if j < n - 2 {
            assert(after[j] == exprs[j]);
        } else {
            assert(priority(ops[j - 1]) < priority(ops[n - 2]));
        }
    }
    assert forall|i: int| 0 <= i < fewer.len() && i < after.len() implies after[i].root_priority()
        >= priority(#[trigger] fewer[i]) by {
        assert(fewer[i] == ops[i]);
        assert(after[i] == exprs[i]);
    }
    // The run is unchanged: the new top reads as lower, operator, upper.
    let below = exprs.subrange(0, n - 2);
    assert(after.drop_last() =~= below);
    assert(exprs.drop_last().drop_last() =~= below);
    assert(exprs.drop_last().last() == lower);
    assert(stack_items(exprs, ops) == stack_items(exprs.drop_last(), ops) + upper.items());
    assert(stack_items(exprs.drop_last(), ops) == stack_items(exprs.drop_last(), fewer)
        + seq![Item::Operator(ops.last())]);
    assert(stack_items(exprs.drop_last(), fewer) == stack_items(below, fewer) + lower.items());
    assert(stack_items(after, fewer) == stack_items(below, fewer) + after.last().items());
    assert(after.last().items() == lower.items() + seq![Item::Operator(ops.last())]
        + upper.items());
    assert(stack_items(after, fewer) =~= stack_items(exprs, ops));
}

/// Settling keeps the stacks ordered and what they hold the same; after it,
/// the topmost operator binds looser than the bound.
proof fn lemma_settled(exprs: Seq<ExprView>, ops: Seq<Operation>, bound: int)
    requires
        stack_ordered(exprs, ops),
        exprs.len() == ops.len() + 1,
        exprs.last().root_priority() >= bound,
    ensures
        ({
            let (exprs1, ops1) = settled(exprs, ops, bound);
            &&& stack_ordered(exprs1, ops1)
            &&& exprs1.len() == ops1.len() + 1
            &&& stack_items(exprs1, ops1) == stack_items(exprs, ops)
            &&& exprs1.last().root_priority() >= bound
            &&& ops1.len() > 0 ==> priority(ops1.last()) < bound
        }),
    decreases ops.len(),
{
    if ops.len() >= 1 && exprs.len() >= 2 && bound <= priority(ops.last()) {
        lemma_combined(exprs, ops);
        lemma_settled(combined(exprs, ops.last()), ops.drop_last(), bound);
    }
}

/// A leaf on the operand stack keeps the stacks ordered and adds its
/// operand to what they hold.
proof fn lemma_push_operand(exprs: Seq<ExprView>, ops: Seq<Operation>, data: ExprDataView)
    requires
        stack_ordered(exprs, ops),
        exprs.len() == ops.len(),
    ensures
        stack_ordered(exprs.push(ExprView::Unary(data)), ops),
        stack_items(exprs.push(ExprView::Unary(data)), ops) == stack_items(exprs, ops)
            + seq![Item::Operand(data)],
{
    reveal(stack_ordered);
    let leaf = ExprView::Unary(data);
    let more = exprs.push(leaf);
    assert(more.drop_last() =~= exprs);
    assert(leaf.items() =~= seq![Item::Operand(data)]);
    assert forall|i: int| 0 <= i < more.len() implies (#[trigger] more[i]).precedence_ordered() by {
        if i < exprs.len() {
            assert(more[i] == exprs[i]);
        }
    }
    assert forall|i: int| 0 <= i < ops.len() && i < more.len() implies more[i].root_priority()
        >= priority(#[trigger] ops[i]) by {
        assert(more[i] == exprs[i]);
    }
    assert forall|j: int| 1 <= j < more.len() && j - 1 < ops.len() implies (
    #[trigger] more[j]).root_priority() > priority(ops[j - 1]) by {
        if j < exprs.len() {
            assert(more[j] == exprs[j]);
        }
    }
}

/// An operator that binds tighter than the topmost one, and no tighter than
/// the topmost operand, keeps the stacks ordered.
proof fn lemma_push_operator(exprs: Seq<ExprView>, ops: Seq<Operation>, op: Operation)
    requires
        stack_ordered(exprs, ops),
        exprs.len() == ops.len() + 1,
        exprs.last().root_priority() >= priority(op),
        ops.len() > 0 ==> priority(ops.last()) < priority(op),
    ensures
        stack_ordered(exprs, ops.push(op)),
        stack_items(exprs, ops.push(op)) == stack_items(exprs, ops) + seq![Item::Operator(op)],
{
    reveal(stack_ordered);
    let more = ops.push(op);
    assert(more.drop_last() =~= ops);
    assert forall|i: int, j: int| 0 <= i < j < more.len() implies priority(#[trigger] more[i])
        < priority(#[trigger] more[j]) by {
        assert(more[i] == ops[i]);
        if j < ops.len() {
            assert(more[j] == ops[j]);
        } else if i < ops.len() - 1 {
            assert(priority(ops[i]) < priority(ops[ops.len() - 1]));
        }
    }
    assert forall|i: int| 0 <= i < more.len() && i < exprs.len() implies exprs[i].root_priority()
        >= priority(#[trigger] more[i]) by {
        if i < ops.len() {
            assert(more[i] == ops[i]);
        }
    }
    assert forall|j: int| 1 <= j < exprs.len() && j - 1 < more.len() implies (
    #[trigger] exprs[j]).root_priority() > priority(more[j - 1]) by {
        assert(more[j - 1] == ops[j - 1]);
    }
}

/// Empty stacks are ordered and hold nothing.
proof fn lemma_empty_stacks()
    ensures
        stack_ordered(Seq::empty(), Seq::empty()),
        stack_items(Seq::empty(), Seq::empty()) == Seq::<Item>::empty(),
{
    reveal(stack_ordered);
}

/// A single operand without operators is an ordered tree, and the stacks
/// hold its run.
proof fn lemma_single(exprs: Seq<ExprView>, ops: Seq<Operation>)
    requires
        stack_ordered(exprs, ops),
        exprs.len() == 1,
        ops.len() == 0,
    ensures
        exprs[0].precedence_ordered(),
        stack_items(exprs, ops) == exprs[0].items(),
{
    reveal(stack_ordered);
    assert(stack_items(exprs.drop_last(), ops) =~= Seq::<Item>::empty());
    assert(stack_items(exprs, ops) =~= exprs[0].items());
}

impl ExprData {
    /// The leaf that `tok` stands for, if it is an operand token.
    pub fn from_token(tok: &Token) -> (r: Option<ExprData>)
        ensures
            match r {
                Some(data) => operand_of(tok@) == Some(data@),
                None => operand_of(tok@) is None,
            },
    {
        match tok {
            Token::StringLit(string) => Some(ExprData::StrLit(string.clone())),
            Token::IntLit(number) => Some(ExprData::IntLit(*number)),
            Token::Name(name) => Some(ExprData::Name(name.clone())),
            _ => None,
        }
    }
}

impl Expr {
    /// Parses the expression that starts at position `x` and moves `x` past
    /// it. Where no expression starts there, `x` stays where it was.
    ///
    /// In the tree, tighter operators stand deeper and operators of equal
    /// priority group to the left.
    pub fn new(lex: &Vec<Token>, x: &mut usize) -> (r: Option<Box<Expr>>)
        requires
            terminated(lex.deep_view()),
            *old(x) < lex.len(),
        ensures
            *old(x) <= *final(x) < lex.len(),
            match expr_at(lex.deep_view(), *old(x) as int) {
                Some((tree, next)) => r matches Some(e) && e@ == tree && *final(x) == next,
                None => r is None && *final(x) == *old(x),
            },
            r matches Some(e) ==> e@.precedence_ordered(),
    {
        let save: usize = *x;
        let ghost ts = lex.deep_view();
        let ghost run = expr_run(ts, save as int, false);
        let mut expr_stack: Vec<Expr> = Vec::new();
        let mut op_stack: Vec<Operation> = Vec::new();
        let mut get_op = false;
        let mut scanning = true;
        proof {
            lemma_empty_stacks();
            assert(expr_stack.deep_view() =~= Seq::<ExprView>::empty());
        }
        while scanning
            invariant
                ts == lex.deep_view(),
                terminated(ts),
                save <= *x < lex.len(),
                run == stack_items(expr_stack.deep_view(), op_stack@) + expr_run(
                    ts,
                    *x as int,
                    get_op,
                ),
                stack_items(expr_stack.deep_view(), op_stack@).len() == *x - save,
                (*x - save) % 2 == (if get_op { 1int } else { 0int }),
                expr_stack.len() == op_stack.len() + (if get_op { 1int } else { 0int }),
                stack_ordered(expr_stack.deep_view(), op_stack@),
                get_op ==> expr_stack.deep_view().last().root_priority() == 4,
                !scanning ==> expr_run(ts, *x as int, get_op).len() == 0,
            decreases lex.len() - *x + (if scanning { 1int } else { 0int }),
        {
            let ghost exprs = expr_stack.deep_view();
            let ghost ops = op_stack@;
            let ghost t = ts[*x as int];
            assert(t == lex@[*x as int]@);
            let operand = ExprData::from_token(&lex[*x]);
            let operator = Operation::from_token(&lex[*x]);
            if !get_op && operand.is_some() {
                let data = operand.unwrap();
                let ghost leaf = ExprView::Unary(data@);
                expr_stack.push(Expr::Unary(data));
                proof {
                    assert(expr_stack.deep_view() =~= exprs.push(leaf));
                    lemma_push_operand(exprs, ops, data@);
                    assert(run =~= stack_items(exprs.push(leaf), ops) + expr_run(
                        ts,
                        *x + 1,
                        true,
                    ));
                    assert(t.kind != RawToken::EOF);
                }
                get_op = true;
                *x += 1;
            } else if get_op && operator.is_some() {
                let op = operator.unwrap();
                perform_operation(&mut expr_stack, &mut op_stack, op);
                proof {
                    lemma_settled(exprs, ops, priority(op));
                    let (exprs1, ops1) = settled(exprs, ops, priority(op));
                    lemma_push_operator(exprs1, ops1, op);
                    assert(run =~= stack_items(exprs1, ops1.push(op)) + expr_run(
                        ts,
                        *x + 1,
                        false,
                    ));
                    assert(t.kind != RawToken::EOF);
                }
                get_op = false;
                *x += 1;
            } else {
                scanning = false;
            }
        }
        if !get_op {
            *x = save;
            return None;
        }
        while op_stack.len() > 0
            invariant
                expr_stack.len() == op_stack.len() + 1,
                stack_ordered(expr_stack.deep_view(), op_stack@),
                stack_items(expr_stack.deep_view(), op_stack@) == run,
            decreases op_stack.len(),
        {
            proof {
                lemma_combined(expr_stack.deep_view(), op_stack@);
            }
            combine_expression(&mut expr_stack, &mut op_stack);
        }
        let ghost exprs = expr_stack.deep_view();
        let tree = expr_stack.pop().unwrap();
        proof {
            assert(exprs.last() == tree@);
            lemma_single(exprs, op_stack@);
            lemma_tree_of_items(tree@);
        }
        Some(Box::new(tree))
    }
}

impl Operation {
    /// The symbol of this operator.
    pub fn to_string(&self) -> (r: String)
        ensures
            r@ == operation_text(*self),
    {
        match self {
            Operation::Equals => "==".to_owned(),
            Operation::Times => "*".to_owned(),
            Operation::Plus => "+".to_owned(),
            Operation::GT => ">".to_owned(),
            Operation::LT => "<".to_owned(),
        }
    }
}

impl ExprData {
    /// The text of this leaf.
    pub fn to_string(&self) -> (r: String)
        ensures
            r@ == leaf_text(self@),
    {
        match self {
            ExprData::StrLit(s) => s.clone(),
            ExprData::IntLit(n) => int_to_string(*n),
            ExprData::Name(s) => s.clone(),
        }
    }
}

impl Expr {
    /// The canonical text of this expression.
    pub fn to_string(&self) -> (r: String)
        ensures
            r@ == expr_text(self@),
        decreases self,
    {
        match self {
            Expr::Unary(data) => data.to_string(),
            Expr::Binary(oper1, oper2, op) => {
                let mut out = "(".to_owned();
                out.append(oper1.to_string().as_str());
                out.append(" ");
                out.append(op.to_string().as_str());
                out.append(" ");
                out.append(oper2.to_string().as_str());
                out.append(")");
                out
            },
        }
    }
}

} // verus!
