use vstd::prelude::*;

use crate::fold::{
    ConstGroup, ConstGroupView, Group, GroupView, as_lit_str, const_group_expr, const_group_of, exprs_indices_between,
    group, grouped, interspersed, intersperse_separator, push_exprs, reversed,
};
use crate::model::{Args, ArgsView, Expr, ExprView, Item, ItemView, index_seq, strings_view};

verus! {

/// One binding of the code that builds the string at run time.
#[derive(Debug, Clone, PartialEq, Eq)]
pub enum Piece {
    /// `const piece_i: &str = ..;`, concatenated at compile time.
    Const(ConstGroup),
    /// `let piece_i: &str = ..;`
    Dynamic(Expr),
}

/// The code that `fconcat!` expands to.
#[derive(Debug, Clone, PartialEq, Eq)]
pub enum Expansion {
    /// The empty string literal.
    Empty,
    /// One constant, concatenated at compile time (with tag 0).
    Constant(ConstGroup),
    /// The single piece itself.
    Direct(Expr),
    /// A `String` built at run time: the separator bound first (when it is not
    /// a string literal), then one binding per piece (piece `i` has tag `i`),
    /// then a buffer of their total length that each piece is pushed onto.
    Build { separator: Option<Expr>, pieces: Vec<Piece> },
}

/// The model of a [`Piece`].
pub enum PieceView {
    Const(ConstGroupView),
    Dynamic(ExprView),
}

/// The model of an [`Expansion`].
pub enum ExpansionView {
    Empty,
    Constant(ConstGroupView),
    Direct(ExprView),
    Build { separator: Option<ExprView>, pieces: Seq<PieceView> },
}

impl View for Piece {
    type V = PieceView;

    open spec fn view(&self) -> PieceView {
        match self {
            Piece::Const(g) => PieceView::Const(g@),
            Piece::Dynamic(e) => PieceView::Dynamic(e@),
        }
    }
}

impl View for Expansion {
    type V = ExpansionView;

    open spec fn view(&self) -> ExpansionView {
        match self {
            Expansion::Empty => ExpansionView::Empty,
            Expansion::Constant(g) => ExpansionView::Constant(g@),
            Expansion::Direct(e) => ExpansionView::Direct(e@),
            Expansion::Build { separator, pieces } => ExpansionView::Build {
                separator: match separator {
                    Some(e) => Some(e@),
                    None => None,
                },
                pieces: pieces@.map_values(|p: Piece| p@),
            },
        }
    }
}

/// The binding that group `i` of the output makes.
pub open spec fn piece_of(g: GroupView, i: int) -> PieceView {
    match g {
        GroupView::Const(es) => PieceView::Const(const_group_of(es, i as usize)),
        GroupView::Dynamic(e) => PieceView::Dynamic(e),
    }
}

/// The pieces after the separator has been placed: unchanged without a
/// separator; a string literal separator is placed as text, any other is bound
/// to a name that is placed between the pieces.
pub open spec fn separated_items(args: ArgsView) -> Seq<ItemView> {
    match args.sep {
        Some(s) => match s.str_literal() {
            Some(l) => interspersed(args.items, Some(l), false),
            None => interspersed(args.items, None, true),
        },
        None => args.items,
    }
}

/// The separator that is bound to a name: the one that is no string literal.
pub open spec fn bound_separator(args: ArgsView) -> Option<ExprView> {
    match args.sep {
        Some(s) => if s.str_literal() is None {
            Some(s.expr())
        } else {
            None
        },
        None => None,
    }
}

/// The expansion of `fconcat!` with these arguments: nothing when there is no
/// piece; the piece itself, or one constant, when a single group remains and no
/// separator is bound; otherwise a string built at run time.
pub open spec fn expansion_of(args: ArgsView) -> ExpansionView {
    let groups = grouped(separated_items(args));
    let binding = bound_separator(args);
    if groups.len() == 0 {
        ExpansionView::Empty
    } else if groups.len() == 1 && binding is None {
        match groups[0] {
            GroupView::Const(es) => ExpansionView::Constant(const_group_of(es, 0)),
            GroupView::Dynamic(e) => ExpansionView::Direct(e),
        }
    } else {
        ExpansionView::Build {
            separator: binding,
            pieces: Seq::new(groups.len(), |i: int| piece_of(groups[i], i)),
        }
    }
}

/// Decides the code that `fconcat!` expands to.
pub fn fconcat(args: Args) -> (e: Expansion)
    ensures
        e@ == expansion_of(args@),
{
    let ghost av = args@;
    let Args { sep, items } = args;
    let mut separator: Option<Expr> = None;
    let items = match sep {
        Some(sep) => {
            let sep_lit = as_lit_str(&sep);
            let sep_ident = sep_lit.is_none();
            if sep_ident {
                separator = Some(
                    match sep {
                        Item::Const(e) => e,
                        Item::Dynamic(e) => e,
                    },
                );
            }
            intersperse_separator(items, sep_lit, sep_ident)
        },
        None => items,
    };
    let groups = group(items);
    let ghost gv = grouped(separated_items(av));
    assert(crate::fold::groups_view(groups@) == gv);
    let ghost binding = match &separator {
        Some(e) => Some(e@),
        None => None,
    };
    assert(binding == bound_separator(av));
    if groups.len() == 0 {
        return Expansion::Empty;
    }
    if groups.len() == 1 && separator.is_none() {
        let mut groups = groups;
        let g = groups.pop().unwrap();
        assert(g@ == gv[0]);
        return match g {
            Group::Const(es) => Expansion::Constant(const_group_expr(es, 0)),
            Group::Dynamic(e) => Expansion::Direct(e),
        };
    }
    let n = groups.len();
    let mut rest = reversed(groups);
    let mut pieces: Vec<Piece> = Vec::new();
    let mut i: usize = 0;
    while i < n
        invariant
            i <= n,
            n == gv.len(),
            rest@.len() == n - i,
            forall|j: int| 0 <= j < rest@.len() ==> (#[trigger] rest@[j])@ == gv[n - 1 - j],
            pieces@.len() == i,
            forall|j: int| 0 <= j < i ==> (#[trigger] pieces@[j])@ == piece_of(gv[j], j),
        decreases n - i,
    {
        let g = rest.pop().unwrap();
        assert(g@ == gv[i as int]);
        let piece = match g {
            Group::Const(es) => Piece::Const(const_group_expr(es, i)),
            Group::Dynamic(e) => Piece::Dynamic(e),
        };
        pieces.push(piece);
        i = i + 1;
    }
    let e = Expansion::Build { separator, pieces };
    proof {
        assert(pieces@.map_values(|p: Piece| p@) =~= Seq::new(gv.len(), |i: int| piece_of(gv[i], i)));
    }
    e
}

impl PieceView {
    /// The string that the binding holds.
    pub open spec fn value(self, env: Seq<Seq<char>>, sep: Seq<char>) -> Seq<char> {
        match self {
            PieceView::Const(g) => g.value(env, sep),
            PieceView::Dynamic(e) => e.value(env, sep),
        }
    }
}

/// The values of `pieces`, one after the other.
pub open spec fn concat_pieces(pieces: Seq<PieceView>, env: Seq<Seq<char>>, sep: Seq<char>) -> Seq<char>
    decreases pieces.len(),
{
    if pieces.len() == 0 {
        Seq::empty()
    } else {
        concat_pieces(pieces.drop_last(), env, sep) + pieces.last().value(env, sep)
    }
}

impl ExpansionView {
    /// The string that the expanded code evaluates to, where `env` holds the
    /// values of the input's expressions.
    pub open spec fn value(self, env: Seq<Seq<char>>) -> Seq<char> {
        match self {
            ExpansionView::Empty => Seq::empty(),
            ExpansionView::Constant(g) => g.value(env, Seq::empty()),
            ExpansionView::Direct(e) => e.value(env, Seq::empty()),
            ExpansionView::Build { separator, pieces } => {
                let sep = match separator {
                    Some(e) => e.value(env, Seq::empty()),
                    None => Seq::empty(),
                };
                concat_pieces(pieces, env, sep)
            },
        }
    }
}

impl PieceView {
    /// Whether every input expression that the binding refers to has its position in `lo..hi`.
    pub open spec fn indices_between(self, lo: int, hi: int) -> bool {
        match self {
            PieceView::Const(g) => exprs_indices_between(g.exprs(), lo, hi),
            PieceView::Dynamic(e) => e.indices_between(lo, hi),
        }
    }
}

impl ExpansionView {
    /// Whether every input expression that the expansion refers to, apart from
    /// the bound separator, has its position in `lo..hi`.
    pub open spec fn body_indices_between(self, lo: int, hi: int) -> bool {
        match self {
            ExpansionView::Empty => true,
            ExpansionView::Constant(g) => exprs_indices_between(g.exprs(), lo, hi),
            ExpansionView::Direct(e) => e.indices_between(lo, hi),
            ExpansionView::Build { pieces, .. } => forall|i: int|
                0 <= i < pieces.len() ==> (#[trigger] pieces[i]).indices_between(lo, hi),
        }
    }

    /// Whether every input expression that the expansion refers to is among the first `n`.
    pub open spec fn indices_below(self, n: int) -> bool {
        &&& self.body_indices_between(0, n)
        &&& (self matches ExpansionView::Build { separator: Some(e), .. } ==> e.indices_between(0, n))
    }
}

impl Expansion {
    /// Runs the expanded code: the string it evaluates to, where `values`
    /// holds the values of the input's expressions.
    pub fn evaluate(&self, values: &Vec<String>) -> (s: String)
        requires
            self@.indices_below(values@.len() as int),
        ensures
            s@ == self@.value(strings_view(values@)),
    {
        let ghost env = strings_view(values@);
        let no_sep = String::new();
        match self {
            Expansion::Empty => String::new(),
            Expansion::Constant(g) => {
                let mut buf = String::new();
                push_exprs(&mut buf, g.exprs(), values, &no_sep);
                buf
            },
            Expansion::Direct(e) => e.evaluate(values, &no_sep),
            Expansion::Build { separator, pieces } => {
                let sep = match separator {
                    Some(e) => e.evaluate(values, &no_sep),
                    None => String::new(),
                };
                let ghost pv = pieces@.map_values(|p: Piece| p@);
                let mut buf = String::new();
                let mut i: usize = 0;
                proof {
                    assert(pv.take(0) =~= Seq::<PieceView>::empty());
                    assert(pv == self@->pieces);
                }
                while i < pieces.len()
                    invariant
                        i <= pieces@.len(),
                        pv == pieces@.map_values(|p: Piece| p@),
                        env == strings_view(values@),
                        forall|j: int| 0 <= j < pv.len() ==> (#[trigger] pv[j]).indices_between(0, values@.len() as int),
                        buf@ == concat_pieces(pv.take(i as int), env, sep@),
                    decreases pieces@.len() - i,
                {
                    assert(pv[i as int] == pieces@[i as int]@);
                    assert(pv[i as int].indices_between(0, values@.len() as int));
                    let ghost before = buf@;
                    match &pieces[i] {
                        Piece::Const(g) => {
                            push_exprs(&mut buf, g.exprs(), values, &sep);
                        },
                        Piece::Dynamic(e) => {
                            let v = e.evaluate(values, &sep);
                            buf.append(v.as_str());
                        },
                    }
                    proof {
                        assert(pv.take(i + 1).drop_last() =~= pv.take(i as int));
                        assert(pv.take(i + 1).last() == pv[i as int]);
                        assert(buf@ =~= before + pv[i as int].value(env, sep@));
                    }
                    i = i + 1;
                }
                assert(pv.take(pieces@.len() as int) =~= pv);
                buf
            },
        }
    }
}

/// How the crate was found among the dependencies of the crate being compiled.
#[derive(Debug, Clone, PartialEq, Eq)]
pub enum CrateLookup {
    /// The crate being compiled is this crate.
    Itself,
    /// It depends on this crate under the given name.
    Name(String),
    /// The lookup failed.
    Missing,
}

/// The path that the expanded code names this crate by.
#[derive(Debug, Clone, PartialEq, Eq)]
pub enum CratePath {
    /// `crate`
    Local,
    /// `::name`
    Extern(String),
}

/// The path to name this crate by: `crate` inside it, the name it was found
/// under elsewhere, and `::fastcat` when it was not found.
pub fn fastcat_path(found: CrateLookup) -> (p: CratePath)
    ensures
        match found {
            CrateLookup::Itself => p is Local,
            CrateLookup::Name(n) => p matches CratePath::Extern(m) && m@ == n@,
            CrateLookup::Missing => p matches CratePath::Extern(m) && m@ == "fastcat"@,
        },
{
    match found {
        CrateLookup::Itself => CratePath::Local,
        CrateLookup::Name(name) => CratePath::Extern(name),
        CrateLookup::Missing => CratePath::Extern(String::from_str("fastcat")),
    }
}

/// The input expressions that the dynamic bindings evaluate at run time, in order.
pub open spec fn pieces_runtime(pieces: Seq<PieceView>) -> Seq<usize>
    decreases pieces.len(),
{
    if pieces.len() == 0 {
        Seq::empty()
    } else {
        pieces_runtime(pieces.drop_last()) + match pieces.last() {
            PieceView::Dynamic(e) => index_seq(e.input_index()),
            PieceView::Const(_) => Seq::empty(),
        }
    }
}

impl ExpansionView {
    /// The input expressions that the expanded code evaluates when it runs, in
    /// the order it evaluates them; constants are evaluated when compiling.
    pub open spec fn runtime_order(self) -> Seq<usize> {
        match self {
            ExpansionView::Empty => Seq::empty(),
            ExpansionView::Constant(_) => Seq::empty(),
            ExpansionView::Direct(e) => index_seq(e.input_index()),
            ExpansionView::Build { separator, pieces } => {
                let first = match separator {
                    Some(e) => index_seq(e.input_index()),
                    None => Seq::<usize>::empty(),
                };
                first + pieces_runtime(pieces)
            },
        }
    }
}

} // verus!
