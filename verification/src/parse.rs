use vstd::prelude::*;

use crate::fold::reversed;
use crate::model::{Args, ArgsView, Expr, ExprView, Item, ItemView, Shape, ShapeView, items_view};

verus! {

/// What the reading of the input needs to know of one parsed expression.
#[derive(Debug, Clone, PartialEq, Eq)]
pub enum RawExpr {
    /// A `const { .. }` block; `tail` is the shape of its sole expression when
    /// the block holds nothing but one expression without a semicolon.
    ConstBlock { tail: Option<Shape> },
    /// Any other expression.
    Plain(Shape),
}

/// The model of a [`RawExpr`].
pub enum RawExprView {
    ConstBlock { tail: Option<ShapeView> },
    Plain(ShapeView),
}

impl View for RawExpr {
    type V = RawExprView;

    open spec fn view(&self) -> RawExprView {
        match self {
            RawExpr::ConstBlock { tail } => RawExprView::ConstBlock {
                tail: match tail {
                    Some(s) => Some(s@),
                    None => None,
                },
            },
            RawExpr::Plain(s) => RawExprView::Plain(s@),
        }
    }
}

/// The models of a sequence of parsed expressions.
pub open spec fn raws_view(raws: Seq<RawExpr>) -> Seq<RawExprView> {
    raws.map_values(|r: RawExpr| r@)
}

/// The piece that the expression at `index` makes: a `const { .. }` block and a
/// literal are constant (the block stands for its sole expression where it has
/// one, else for its statements as a plain block); anything else is dynamic.
pub open spec fn parsed_item(raw: RawExprView, index: usize) -> ItemView {
    match raw {
        RawExprView::ConstBlock { tail: Some(shape) } => ItemView::Const(ExprView::ConstTail { index, shape }),
        RawExprView::ConstBlock { tail: None } => ItemView::Const(ExprView::ConstBody { index }),
        RawExprView::Plain(ShapeView::Other) => ItemView::Dynamic(ExprView::Whole { index, shape: ShapeView::Other }),
        RawExprView::Plain(shape) => ItemView::Const(ExprView::Whole { index, shape }),
    }
}

/// The arguments that a separator (when there is one) and the pieces make;
/// the expressions are numbered in the order they are written.
pub open spec fn parsed_args(sep: Option<RawExprView>, items: Seq<RawExprView>) -> ArgsView {
    let offset: int = if sep is Some { 1 } else { 0 };
    ArgsView {
        sep: match sep {
            Some(r) => Some(parsed_item(r, 0)),
            None => None,
        },
        items: Seq::new(items.len(), |i: int| parsed_item(items[i], (offset + i) as usize)),
    }
}

/// The expression that stands for the `const { .. }` block at `index`.
fn unwrap_const_block(index: usize, tail: Option<Shape>) -> (e: Expr)
    ensures
        e@ == (match tail {
            Some(shape) => ExprView::ConstTail { index, shape: shape@ },
            None => ExprView::ConstBody { index },
        }),
{
    match tail {
        Some(shape) => Expr::ConstTail { index, shape },
        None => Expr::ConstBody { index },
    }
}

impl Item {
    /// Reads the expression at `index` as a piece.
    pub fn parse(raw: RawExpr, index: usize) -> (item: Item)
        ensures
            item@ == parsed_item(raw@, index),
    {
        match raw {
            RawExpr::ConstBlock { tail } => Item::Const(unwrap_const_block(index, tail)),
            RawExpr::Plain(Shape::Other) => Item::Dynamic(Expr::Whole { index, shape: Shape::Other }),
            RawExpr::Plain(shape) => Item::Const(Expr::Whole { index, shape }),
        }
    }
}

impl Args {
    /// Reads the separator, when the input has one, and the pieces.
    pub fn parse(sep: Option<RawExpr>, items: Vec<RawExpr>) -> (args: Args)
        ensures
            args@ == parsed_args(
                match sep {
                    Some(r) => Some(r@),
                    None => None,
                },
                raws_view(items@),
            ),
            args@.is_input(),
            args@.numbered(if sep is Some { 1int } else { 0int }, items@.len() + (if sep is Some { 1int } else { 0int })),
    {
        let ghost rv = raws_view(items@);
        let offset: usize = if sep.is_some() { 1 } else { 0 };
        let sep_item = match sep {
            Some(r) => Some(Item::parse(r, 0)),
            None => None,
        };
        let n = items.len();
        let mut rest = reversed(items);
        let mut parsed: Vec<Item> = Vec::new();
        while rest.len() > 0
            invariant
                rest@.len() + parsed@.len() == n,
                n == rv.len(),
                offset <= 1,
                forall|j: int| 0 <= j < rest@.len() ==> (#[trigger] rest@[j])@ == rv[n - 1 - j],
                forall|j: int| 0 <= j < parsed@.len() ==> (#[trigger] parsed@[j])@
                    == parsed_item(rv[j], (offset + j) as usize),
            decreases rest@.len(),
        {
            let raw = rest.pop().unwrap();
            assert(raw@ == rv[parsed@.len() as int]);
            let index = offset + parsed.len();
            let item = Item::parse(raw, index);
            parsed.push(item);
        }
        let args = Args { sep: sep_item, items: parsed };
        proof {
            assert(items_view(parsed@) =~= Seq::new(rv.len(), |i: int| parsed_item(rv[i], (offset + i) as usize)));
            assert(args@.items == items_view(parsed@));
            assert forall|i: int| 0 <= i < args@.items.len() implies (#[trigger] args@.items[i]).expr().is_input() by {
                assert(args@.items[i] == parsed_item(rv[i], (offset + i) as usize));
            }
            assert forall|i: int| 0 <= i < args@.items.len() implies (#[trigger] args@.items[i]).expr().indices_between(
                offset as int,
                n + offset,
            ) by {
                assert(args@.items[i] == parsed_item(rv[i], (offset + i) as usize));
            }
        }
        args
    }
}

} // verus!
