//! The tree that operator precedence gives to a run of operands and
//! operators, and what holds of every such tree.

use crate::parser::expr::{priority, ExprDataView, ExprView, Operation};
use vstd::prelude::*;

verus! {

/// One element of a run: an operand or an operator.
pub enum Item {
    Operand(ExprDataView),
    Operator(Operation),
}

/// The priority of an operator item; an operand counts as binding tighter
/// than every operator.
pub open spec fn item_priority(it: Item) -> int {
    match it {
        Item::Operator(op) => priority(op),
        Item::Operand(_) => 4,
    }
}

/// A run is well formed when it starts and ends with an operand and
/// operands and operators take turns.
pub open spec fn alternating(items: Seq<Item>) -> bool {
    &&& items.len() % 2 == 1
    &&& forall|i: int| 0 <= i < items.len() ==> ((#[trigger] items[i]) is Operator <==> i % 2 == 1)
}

/// Where a run splits: the position of the last operator among those of the
/// least priority, or -1 if the run holds no operator.
pub open spec fn split_point(items: Seq<Item>) -> int
    decreases items.len(),
{
    if items.len() == 0 {
        -1
    } else {
        let k = split_point(items.drop_last());
        if items.last() is Operator && (k < 0 || item_priority(items.last()) <= item_priority(
            items[k],
        )) {
            items.len() - 1
        } else {
            k
        }
    }
}

/// The expression that a run denotes. A single operand is a leaf. A longer
/// run splits at its split point: what stands before it is the left operand,
/// what stands after it the right one. So tighter operators end up deeper,
/// and operators of equal priority group to the left.
pub open spec fn expr_tree(items: Seq<Item>) -> ExprView
    decreases items.len(),
{
    let k = split_point(items);
    if 0 < k < items.len() - 1 {
        match items[k] {
            Item::Operator(op) => ExprView::Binary(
                Box::new(expr_tree(items.subrange(0, k))),
                Box::new(expr_tree(items.subrange(k + 1, items.len() as int))),
                op,
            ),
            Item::Operand(data) => ExprView::Unary(data),
        }
    } else {
        match items.first() {
            Item::Operand(data) => ExprView::Unary(data),
            Item::Operator(_) => ExprView::Unary(ExprDataView::IntLit(0)),
        }
    }
}

impl ExprView {
    /// The priority of the operator at the root; a leaf counts as binding
    /// tighter than every operator.
    pub open spec fn root_priority(self) -> int {
        match self {
            ExprView::Unary(_) => 4,
            ExprView::Binary(_, _, op) => priority(op),
        }
    }

    /// At every operator of the tree, the left operand's root binds at least
    /// as tightly and the right operand's root binds strictly tighter.
    pub open spec fn precedence_ordered(self) -> bool
        decreases self,
    {
        match self {
            ExprView::Unary(_) => true,
            ExprView::Binary(left, right, op) => {
                &&& left.precedence_ordered()
                &&& right.precedence_ordered()
                &&& left.root_priority() >= priority(op)
                &&& right.root_priority() > priority(op)
            },
        }
    }

    /// The run that reads this tree from left to right.
    pub open spec fn items(self) -> Seq<Item>
        decreases self,
    {
        match self {
            ExprView::Unary(data) => seq![Item::Operand(data)],
            ExprView::Binary(left, right, op) => left.items() + seq![Item::Operator(op)]
                + right.items(),
        }
    }
}

/// The split point is an operator of the least priority in the run, and
/// every operator after it binds strictly tighter.
pub proof fn lemma_split_point(items: Seq<Item>)
    ensures
        -1 <= split_point(items) < items.len(),
        split_point(items) >= 0 ==> items[split_point(items)] is Operator,
        forall|i: int|
            0 <= i < items.len() && (#[trigger] items[i]) is Operator ==> split_point(items) >= 0
                && item_priority(items[i]) >= item_priority(items[split_point(items)]),
        forall|i: int|
            split_point(items) < i < items.len() && (#[trigger] items[i]) is Operator
                ==> item_priority(items[i]) > item_priority(items[split_point(items)]),
    decreases items.len(),
{
    if items.len() > 0 {
        let rest = items.drop_last();
        lemma_split_point(rest);
        let k = split_point(rest);
        assert forall|i: int| 0 <= i < items.len() && (#[trigger] items[i]) is Operator implies
            split_point(items) >= 0 && item_priority(items[i]) >= item_priority(
            items[split_point(items)],
        ) by {
            if i < rest.len() {
                assert(rest[i] is Operator);
            }
        }
        assert forall|i: int|
            split_point(items) < i < items.len() && (#[trigger] items[i]) is Operator implies
            item_priority(items[i]) > item_priority(items[split_point(items)]) by {
            if i < rest.len() {
                assert(rest[i] is Operator);
            }
        }
    }
}

/// A run made of a left part, an operator and a right part splits at that
/// operator when nothing on the left binds looser than it and everything on
/// the right binds strictly tighter.
pub proof fn lemma_split_point_concat(left: Seq<Item>, op: Operation, right: Seq<Item>)
    requires
        forall|i: int|
            0 <= i < left.len() && (#[trigger] left[i]) is Operator ==> item_priority(left[i])
                >= priority(op),
        forall|i: int|
            0 <= i < right.len() && (#[trigger] right[i]) is Operator ==> item_priority(right[i])
                > priority(op),
    ensures
        split_point(left + seq![Item::Operator(op)] + right) == left.len(),
    decreases right.len(),
{
    let items = left + seq![Item::Operator(op)] + right;
    if right.len() == 0 {
        assert(items.drop_last() =~= left);
        lemma_split_point(left);
        let k = split_point(left);
        if k >= 0 {
            assert(left[k] is Operator);
            assert(items[k] == left[k]);
        }
    } else {
        let shorter = right.drop_last();
        assert(items.drop_last() =~= left + seq![Item::Operator(op)] + shorter);
        assert forall|i: int| 0 <= i < shorter.len() && (#[trigger] shorter[i]) is Operator implies
            item_priority(shorter[i]) > priority(op) by {
            assert(right[i] is Operator);
        }
        lemma_split_point_concat(left, op, shorter);
        assert(items.last() == right.last());
        assert(items[left.len() as int] == Item::Operator(op));
    }
}

/// The run of a tree is well formed, and in an ordered tree no operator
/// binds looser than the root.
pub proof fn lemma_items_of_tree(e: ExprView)
    ensures
        alternating(e.items()),
        e.precedence_ordered() ==> forall|i: int|
            0 <= i < e.items().len() && (#[trigger] e.items()[i]) is Operator ==> item_priority(
                e.items()[i],
            ) >= e.root_priority(),
    decreases e,
{
    match e {
        ExprView::Unary(_) => {},
        ExprView::Binary(left, right, op) => {
            lemma_items_of_tree(*left);
            lemma_items_of_tree(*right);
            let l = left.items();
            let r = right.items();
            let all = e.items();
            assert forall|i: int| 0 <= i < all.len() implies ((#[trigger] all[i]) is Operator <==> i
                % 2 == 1) by {
                if i < l.len() {
                    assert(all[i] == l[i]);
                } else if i > l.len() {
                    assert(all[i] == r[i - l.len() - 1]);
                }
            }
            if e.precedence_ordered() {
                assert forall|i: int| 0 <= i < all.len() && (#[trigger] all[i]) is Operator implies
                    item_priority(all[i]) >= e.root_priority() by {
                    if i < l.len() {
                        assert(all[i] == l[i]);
                    } else if i > l.len() {
                        assert(all[i] == r[i - l.len() - 1]);
                    }
                }
            }
        },
    }
}

/// An ordered tree is the tree of its own run: precedence leaves no other
/// way to group the run.
pub proof fn lemma_tree_of_items(e: ExprView)
    requires
        e.precedence_ordered(),
    ensures
        expr_tree(e.items()) == e,
    decreases e,
{
    match e {
        ExprView::Unary(data) => {
            let items = e.items();
            assert(items.drop_last() =~= Seq::<Item>::empty());
            assert(split_point(items.drop_last()) == -1);
        },
        ExprView::Binary(left, right, op) => {
            let l = left.items();
            let r = right.items();
            let all = e.items();
            lemma_items_of_tree(*left);
            lemma_items_of_tree(*right);
            lemma_tree_of_items(*left);
            lemma_tree_of_items(*right);
            lemma_split_point_concat(l, op, r);
            assert(all.subrange(0, l.len() as int) =~= l);
            assert(all.subrange(l.len() as int + 1, all.len() as int) =~= r);
            assert(all[l.len() as int] == Item::Operator(op));
        },
    }
}

/// The tree of a well-formed run reads back as that run, and it is ordered:
/// at every operator of it, the left operand's root binds at least as tightly
/// as the operator and the right operand's root binds strictly tighter, so
/// operators of equal priority group to the left.
pub proof fn lemma_expr_tree_ordered(items: Seq<Item>)
    requires
        alternating(items),
    ensures
        expr_tree(items).precedence_ordered(),
        expr_tree(items).items() == items,
        items.len() > 1 ==> expr_tree(items).root_priority() == item_priority(
            items[split_point(items)],
        ),
    decreases items.len(),
{
    lemma_split_point(items);
    let k = split_point(items);
    if items.len() == 1 {
        assert(items[0] is Operand);
        assert(expr_tree(items).items() =~= items);
    } else {
        assert(items[1] is Operator);
        assert(items[k] is Operator);
        assert(!(items[items.len() - 1] is Operator));
        let l = items.subrange(0, k);
        let r = items.subrange(k + 1, items.len() as int);
        assert(alternating(l)) by {
            assert forall|i: int| 0 <= i < l.len() implies ((#[trigger] l[i]) is Operator <==> i % 2
                == 1) by {
                assert(l[i] == items[i]);
            }
        }
        assert(alternating(r)) by {
            assert forall|i: int| 0 <= i < r.len() implies ((#[trigger] r[i]) is Operator <==> i % 2
                == 1) by {
                assert(r[i] == items[k + 1 + i]);
            }
        }
        lemma_expr_tree_ordered(l);
        lemma_expr_tree_ordered(r);
        lemma_split_point(l);
        lemma_split_point(r);
        if l.len() > 1 {
            assert(l[split_point(l)] == items[split_point(l)]);
        }
        if r.len() > 1 {
            assert(r[split_point(r)] == items[k + 1 + split_point(r)]);
        }
        assert(expr_tree(items).items() =~= items);
    }
}

} // verus!
