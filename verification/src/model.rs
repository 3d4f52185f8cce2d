use vstd::prelude::*;

verus! {

/// What the folding needs to know of an expression written in the input.
#[derive(Debug, Clone, PartialEq, Eq)]
pub enum Shape {
    /// A string literal, with the string it denotes (escapes resolved).
    Str(String),
    /// Any other literal: a number, a character, a boolean, a byte string.
    Lit,
    /// Any expression that is not a literal.
    Other,
}

/// An expression of the expansion.
///
/// The expressions written in the input are referred to by their position
/// among the input's expressions, the separator first when there is one.
#[derive(Debug, Clone, PartialEq, Eq)]
pub enum Expr {
    /// The input expression at `index`, as written.
    Whole { index: usize, shape: Shape },
    /// The sole expression of the `const { .. }` block at `index`.
    ConstTail { index: usize, shape: Shape },
    /// The statements of the `const { .. }` block at `index`, as a plain block.
    ConstBody { index: usize },
    /// A string literal made while folding separators.
    Str(String),
    /// The name that a separator which is not a string literal is bound to.
    SepName,
}

/// A piece of the concatenation: known at compile time, or only at run time.
#[derive(Debug, Clone, PartialEq, Eq)]
pub enum Item {
    Const(Expr),
    Dynamic(Expr),
}

/// The arguments of the macro: an optional separator and the pieces.
#[derive(Debug, Clone, PartialEq, Eq)]
pub struct Args {
    pub sep: Option<Item>,
    pub items: Vec<Item>,
}

/// The model of a [`Shape`].
pub enum ShapeView {
    Str(Seq<char>),
    Lit,
    Other,
}

/// The model of an [`Expr`].
pub enum ExprView {
    Whole { index: usize, shape: ShapeView },
    ConstTail { index: usize, shape: ShapeView },
    ConstBody { index: usize },
    Str(Seq<char>),
    SepName,
}

/// The model of an [`Item`].
pub enum ItemView {
    Const(ExprView),
    Dynamic(ExprView),
}

/// The model of [`Args`].
pub struct ArgsView {
    pub sep: Option<ItemView>,
    pub items: Seq<ItemView>,
}

impl View for Shape {
    type V = ShapeView;

    open spec fn view(&self) -> ShapeView {
        match self {
            Shape::Str(s) => ShapeView::Str(s@),
            Shape::Lit => ShapeView::Lit,
            Shape::Other => ShapeView::Other,
        }
    }
}

impl View for Expr {
    type V = ExprView;

    open spec fn view(&self) -> ExprView {
        match self {
            Expr::Whole { index, shape } => ExprView::Whole { index: *index, shape: shape@ },
            Expr::ConstTail { index, shape } => ExprView::ConstTail { index: *index, shape: shape@ },
            Expr::ConstBody { index } => ExprView::ConstBody { index: *index },
            Expr::Str(s) => ExprView::Str(s@),
            Expr::SepName => ExprView::SepName,
        }
    }
}

impl View for Item {
    type V = ItemView;

    open spec fn view(&self) -> ItemView {
        match self {
            Item::Const(e) => ItemView::Const(e@),
            Item::Dynamic(e) => ItemView::Dynamic(e@),
        }
    }
}

impl View for Args {
    type V = ArgsView;

    open spec fn view(&self) -> ArgsView {
        ArgsView {
            sep: match self.sep {
                Some(s) => Some(s@),
                None => None,
            },
            items: items_view(self.items@),
        }
    }
}

/// The models of a sequence of items.
pub open spec fn items_view(items: Seq<Item>) -> Seq<ItemView> {
    items.map_values(|it: Item| it@)
}

/// The models of a sequence of expressions.
pub open spec fn exprs_view(exprs: Seq<Expr>) -> Seq<ExprView> {
    exprs.map_values(|e: Expr| e@)
}

impl ExprView {
    /// The string that the expression denotes, when it is a string literal.
    pub open spec fn str_literal(self) -> Option<Seq<char>> {
        match self {
            ExprView::Whole { shape: ShapeView::Str(s), .. } => Some(s),
            ExprView::ConstTail { shape: ShapeView::Str(s), .. } => Some(s),
            ExprView::Str(s) => Some(s),
            _ => None,
        }
    }

    /// Whether the expression is a literal of any kind.
    pub open spec fn is_literal(self) -> bool {
        match self {
            ExprView::Whole { shape, .. } => !(shape is Other),
            ExprView::ConstTail { shape, .. } => !(shape is Other),
            ExprView::Str(_) => true,
            _ => false,
        }
    }

    /// The string that the expression evaluates to, where `env` holds the
    /// values of the input's expressions and `sep` that of the bound separator.
    ///
    /// A string literal denotes its own text; for any other literal `env`
    /// holds the text that `concat!` makes of it.
    pub open spec fn value(self, env: Seq<Seq<char>>, sep: Seq<char>) -> Seq<char> {
        match self.str_literal() {
            Some(s) => s,
            None => match self {
                ExprView::Whole { index, .. } => env[index as int],
                ExprView::ConstTail { index, .. } => env[index as int],
                ExprView::ConstBody { index } => env[index as int],
                ExprView::Str(s) => s,
                ExprView::SepName => sep,
            },
        }
    }

    /// Whether the expression can stand in a parsed input: the separator's name
    /// only exists once a separator has been bound.
    pub open spec fn is_input(self) -> bool {
        !(self is SepName)
    }
}

impl ItemView {
    pub open spec fn expr(self) -> ExprView {
        match self {
            ItemView::Const(e) => e,
            ItemView::Dynamic(e) => e,
        }
    }

    /// The string that the item denotes, when it is a constant string literal.
    pub open spec fn str_literal(self) -> Option<Seq<char>> {
        match self {
            ItemView::Const(e) => e.str_literal(),
            ItemView::Dynamic(_) => None,
        }
    }

    pub open spec fn value(self, env: Seq<Seq<char>>, sep: Seq<char>) -> Seq<char> {
        self.expr().value(env, sep)
    }
}

/// The values of `items`, one after the other.
pub open spec fn concat_values(items: Seq<ItemView>, env: Seq<Seq<char>>, sep: Seq<char>) -> Seq<char>
    decreases items.len(),
{
    if items.len() == 0 {
        Seq::empty()
    } else {
        concat_values(items.drop_last(), env, sep) + items.last().value(env, sep)
    }
}

/// The values of `items` with `glue` between each two of them.
pub open spec fn join_values(
    items: Seq<ItemView>,
    env: Seq<Seq<char>>,
    sep: Seq<char>,
    glue: Seq<char>,
) -> Seq<char>
    decreases items.len(),
{
    if items.len() == 0 {
        Seq::empty()
    } else if items.len() == 1 {
        items[0].value(env, sep)
    } else {
        join_values(items.drop_last(), env, sep, glue) + glue + items.last().value(env, sep)
    }
}

impl ArgsView {
    /// Every expression comes from the input.
    pub open spec fn is_input(self) -> bool {
        &&& (self.sep matches Some(s) ==> s.expr().is_input())
        &&& forall|i: int| 0 <= i < self.items.len() ==> (#[trigger] self.items[i]).expr().is_input()
    }

    /// The string that `fconcat!` with these arguments evaluates to: the pieces'
    /// values with the separator's value between each two of them.
    pub open spec fn value(self, env: Seq<Seq<char>>) -> Seq<char> {
        match self.sep {
            Some(s) => {
                let glue = s.value(env, Seq::empty());
                join_values(self.items, env, Seq::empty(), glue)
            },
            None => concat_values(self.items, env, Seq::empty()),
        }
    }
}

/// The models of the input's values.
pub open spec fn strings_view(values: Seq<String>) -> Seq<Seq<char>> {
    values.map_values(|s: String| s@)
}

impl ExprView {
    /// Whether every input expression that it refers to has its position in `lo..hi`.
    pub open spec fn indices_between(self, lo: int, hi: int) -> bool {
        match self {
            ExprView::Whole { index, .. } => lo <= index < hi,
            ExprView::ConstTail { index, .. } => lo <= index < hi,
            ExprView::ConstBody { index } => lo <= index < hi,
            _ => true,
        }
    }
}

impl Expr {
    /// The string that the expression evaluates to, where `values` holds the
    /// values of the input's expressions and `sep` that of the bound separator.
    pub fn evaluate(&self, values: &Vec<String>, sep: &String) -> (s: String)
        requires
            self@.indices_between(0, values@.len() as int),
        ensures
            s@ == self@.value(strings_view(values@), sep@),
    {
        match self {
            Expr::Whole { shape: Shape::Str(s), .. } => s.clone(),
            Expr::Whole { index, .. } => values[*index].clone(),
            Expr::ConstTail { shape: Shape::Str(s), .. } => s.clone(),
            Expr::ConstTail { index, .. } => values[*index].clone(),
            Expr::ConstBody { index } => values[*index].clone(),
            Expr::Str(s) => s.clone(),
            Expr::SepName => sep.clone(),
        }
    }
}

/// Whether every input expression that the items refer to has its position in `lo..hi`.
pub open spec fn items_indices_between(items: Seq<ItemView>, lo: int, hi: int) -> bool {
    forall|i: int| 0 <= i < items.len() ==> (#[trigger] items[i]).expr().indices_between(lo, hi)
}

impl ArgsView {
    /// Whether the separator is the input's first expression, and every piece
    /// has its position in `lo..hi`.
    pub open spec fn numbered(self, lo: int, hi: int) -> bool {
        &&& (self.sep matches Some(s) ==> s.expr().indices_between(0, 1))
        &&& items_indices_between(self.items, lo, hi)
    }
}

impl ExprView {
    /// The position of the input expression that this expression is, when it is one.
    pub open spec fn input_index(self) -> Option<usize> {
        match self {
            ExprView::Whole { index, .. } => Some(index),
            ExprView::ConstTail { index, .. } => Some(index),
            ExprView::ConstBody { index } => Some(index),
            _ => None,
        }
    }
}

/// The position, when there is one, as a sequence of at most one position.
pub open spec fn index_seq(i: Option<usize>) -> Seq<usize> {
    match i {
        Some(i) => seq![i],
        None => Seq::empty(),
    }
}

/// The input expressions that the dynamic items evaluate at run time, in order.
pub open spec fn runtime_indices(items: Seq<ItemView>) -> Seq<usize>
    decreases items.len(),
{
    if items.len() == 0 {
        Seq::empty()
    } else {
        runtime_indices(items.drop_last()) + match items.last() {
            ItemView::Dynamic(e) => index_seq(e.input_index()),
            ItemView::Const(_) => Seq::empty(),
        }
    }
}

} // verus!
