use vstd::prelude::*;

use crate::expand::{ExpansionView, PieceView, pieces_runtime, concat_pieces, expansion_of, piece_of, separated_items, bound_separator};
use crate::fold::{
    ConstGroupView, GroupView, concat_exprs, concat_groups, const_group_of, exprs_indices_between, groups_runtime,
    fused_item, gap_before, grouped, interspersed, interspersed_upto,
};
use crate::model::{ArgsView, ExprView, ItemView, concat_values, index_seq, items_indices_between, join_values, runtime_indices};

verus! {

/// The values of two runs of items, one after the other.
proof fn lemma_concat_values_append(a: Seq<ItemView>, b: Seq<ItemView>, env: Seq<Seq<char>>, sep: Seq<char>)
    ensures
        concat_values(a + b, env, sep) == concat_values(a, env, sep) + concat_values(b, env, sep),
    decreases b.len(),
{
    if b.len() == 0 {
        assert(a + b =~= a);
    } else {
        lemma_concat_values_append(a, b.drop_last(), env, sep);
        assert((a + b).drop_last() =~= a + b.drop_last());
        assert((a + b).last() == b.last());
    }
}

/// The value of one item on its own.
proof fn lemma_concat_values_single(x: ItemView, env: Seq<Seq<char>>, sep: Seq<char>)
    ensures
        concat_values(seq![x], env, sep) == x.value(env, sep),
{
    assert(seq![x].drop_last() =~= Seq::<ItemView>::empty());
    assert(concat_values(Seq::<ItemView>::empty(), env, sep) =~= Seq::<char>::empty());
    assert(Seq::<char>::empty() + x.value(env, sep) =~= x.value(env, sep));
}

/// The separator that `interspersed` puts between each two items.
pub open spec fn glue_of(sep_lit: Option<Seq<char>>, sep_ident: bool, sep: Seq<char>) -> Seq<char> {
    match sep_lit {
        Some(s) => s,
        None => if sep_ident {
            sep
        } else {
            Seq::empty()
        },
    }
}

/// The separator after item `k - 1` that has been fused into it while item `k`
/// still follows.
spec fn trailing(items: Seq<ItemView>, k: int, sep_lit: Option<Seq<char>>) -> Seq<char> {
    if 1 <= k < items.len() && items[k - 1].str_literal() is Some {
        match sep_lit {
            Some(s) => s,
            None => Seq::empty(),
        }
    } else {
        Seq::empty()
    }
}

proof fn lemma_interspersed_upto_value(
    items: Seq<ItemView>,
    k: int,
    sep_lit: Option<Seq<char>>,
    sep_ident: bool,
    env: Seq<Seq<char>>,
    sep: Seq<char>,
)
    requires
        0 <= k <= items.len(),
    ensures
        concat_values(interspersed_upto(items, k, sep_lit, sep_ident), env, sep)
            == join_values(items.take(k), env, sep, glue_of(sep_lit, sep_ident, sep)) + trailing(items, k, sep_lit),
    decreases k,
{
    let glue = glue_of(sep_lit, sep_ident, sep);
    if k == 0 {
        assert(items.take(0) =~= Seq::<ItemView>::empty());
        assert(trailing(items, 0, sep_lit) =~= Seq::<char>::empty());
    } else {
        lemma_interspersed_upto_value(items, k - 1, sep_lit, sep_ident, env, sep);
        let prev = interspersed_upto(items, k - 1, sep_lit, sep_ident);
        let gap = gap_before(items, k - 1, sep_lit, sep_ident);
        let fused = fused_item(items, k - 1, sep_lit);
        assert((prev + gap).push(fused) =~= (prev + gap) + seq![fused]);
        lemma_concat_values_append(prev + gap, seq![fused], env, sep);
        lemma_concat_values_append(prev, gap, env, sep);
        lemma_concat_values_single(fused, env, sep);
        let v = items[k - 1].value(env, sep);
        if let Some(l) = items[k - 1].str_literal() {
            assert(v == l);
        }
        if gap.len() == 1 {
            lemma_concat_values_single(gap[0], env, sep);
            assert(gap =~= seq![gap[0]]);
        } else {
            assert(gap =~= Seq::<ItemView>::empty());
        }
        if k == 1 {
            assert(items.take(1) =~= seq![items[0]]);
            assert(prev =~= Seq::<ItemView>::empty());
            assert(concat_values(prev, env, sep) =~= Seq::<char>::empty());
            assert(concat_values(gap, env, sep) =~= Seq::<char>::empty());
            assert(concat_values(interspersed_upto(items, k, sep_lit, sep_ident), env, sep)
                =~= join_values(items.take(k), env, sep, glue) + trailing(items, k, sep_lit));
        } else {
            assert(items.take(k).drop_last() =~= items.take(k - 1));
            assert(items.take(k).last() == items[k - 1]);
            assert(join_values(items.take(k), env, sep, glue)
                == join_values(items.take(k - 1), env, sep, glue) + glue + v);
            assert(concat_values(interspersed_upto(items, k, sep_lit, sep_ident), env, sep)
                =~= join_values(items.take(k), env, sep, glue) + trailing(items, k, sep_lit));
        }
    }
}

/// Placing the separator between the items makes, in value, the items joined
/// by the separator: the literal separator where there is one, the bound
/// separator's value where it is bound, and nothing otherwise.
pub proof fn lemma_interspersed_value(
    items: Seq<ItemView>,
    sep_lit: Option<Seq<char>>,
    sep_ident: bool,
    env: Seq<Seq<char>>,
    sep: Seq<char>,
)
    ensures
        concat_values(interspersed(items, sep_lit, sep_ident), env, sep)
            == join_values(items, env, sep, glue_of(sep_lit, sep_ident, sep)),
{
    lemma_interspersed_upto_value(items, items.len() as int, sep_lit, sep_ident, env, sep);
    assert(items.take(items.len() as int) =~= items);
    assert(trailing(items, items.len() as int, sep_lit) =~= Seq::<char>::empty());
}

/// Grouping keeps the value: the groups' values, one after the other, are the
/// items' values one after the other.
pub proof fn lemma_grouped_value(items: Seq<ItemView>, env: Seq<Seq<char>>, sep: Seq<char>)
    ensures
        concat_groups(grouped(items), env, sep) == concat_values(items, env, sep),
    decreases items.len(),
{
    if items.len() > 0 {
        let prev = grouped(items.drop_last());
        lemma_grouped_value(items.drop_last(), env, sep);
        match items.last() {
            ItemView::Dynamic(e) => {
                assert(prev.push(GroupView::Dynamic(e)).drop_last() =~= prev);
            },
            ItemView::Const(e) => {
                if prev.len() > 0 && prev.last() is Const {
                    let es = prev.last()->Const_0;
                    let upd = prev.update(prev.len() - 1, GroupView::Const(es.push(e)));
                    assert(upd.drop_last() =~= prev.drop_last());
                    assert(es.push(e).drop_last() =~= es);
                    assert(concat_groups(upd, env, sep) =~= concat_groups(prev, env, sep) + e.value(env, sep));
                } else {
                    assert(prev.push(GroupView::Const(seq![e])).drop_last() =~= prev);
                    assert(seq![e].drop_last() =~= Seq::<ExprView>::empty());
                    assert(concat_exprs(Seq::<ExprView>::empty(), env, sep) =~= Seq::<char>::empty());
                    assert(concat_exprs(seq![e], env, sep) =~= e.value(env, sep));
                }
            },
        }
    }
}

/// The bindings of a built string hold, one after the other, the groups' values.
proof fn lemma_pieces_value(gs: Seq<GroupView>, env: Seq<Seq<char>>, sep: Seq<char>)
    ensures
        concat_pieces(Seq::new(gs.len(), |i: int| piece_of(gs[i], i)), env, sep) == concat_groups(gs, env, sep),
    decreases gs.len(),
{
    if gs.len() > 0 {
        let ps = Seq::new(gs.len(), |i: int| piece_of(gs[i], i));
        let shorter = gs.drop_last();
        lemma_pieces_value(shorter, env, sep);
        assert(ps.drop_last() =~= Seq::new(shorter.len(), |i: int| piece_of(shorter[i], i)));
        assert(ps.last().value(env, sep) == gs.last().value(env, sep));
    }
}

/// The value of an item from the input does not depend on the separator's.
proof fn lemma_concat_sep_free(items: Seq<ItemView>, env: Seq<Seq<char>>, a: Seq<char>, b: Seq<char>)
    requires
        forall|i: int| 0 <= i < items.len() ==> (#[trigger] items[i]).expr().is_input(),
    ensures
        concat_values(items, env, a) == concat_values(items, env, b),
    decreases items.len(),
{
    if items.len() > 0 {
        lemma_concat_sep_free(items.drop_last(), env, a, b);
        assert(items.last() == items[items.len() - 1]);
    }
}

/// The value of items from the input, joined, does not depend on the separator's.
proof fn lemma_join_sep_free(items: Seq<ItemView>, env: Seq<Seq<char>>, a: Seq<char>, b: Seq<char>, glue: Seq<char>)
    requires
        forall|i: int| 0 <= i < items.len() ==> (#[trigger] items[i]).expr().is_input(),
    ensures
        join_values(items, env, a, glue) == join_values(items, env, b, glue),
    decreases items.len(),
{
    if items.len() > 1 {
        lemma_join_sep_free(items.drop_last(), env, a, b, glue);
        assert(items.last() == items[items.len() - 1]);
    } else if items.len() == 1 {
        assert(items[0].expr().is_input());
    }
}

/// What `fconcat!` expands to evaluates to the pieces' values with the
/// separator's value between each two of them (one after the other when there
/// is no separator).
pub proof fn lemma_expansion_value(args: ArgsView, env: Seq<Seq<char>>)
    requires
        args.is_input(),
    ensures
        expansion_of(args).value(env) == args.value(env),
{
    let e = Seq::<char>::empty();
    let items = separated_items(args);
    let groups = grouped(items);
    let binding = bound_separator(args);
    let sepv = match binding {
        Some(x) => x.value(env, e),
        None => e,
    };
    lemma_grouped_value(items, env, sepv);
    match args.sep {
        None => {},
        Some(s) => match s.str_literal() {
            Some(l) => {
                lemma_interspersed_value(args.items, Some(l), false, env, e);
                assert(s.value(env, e) == l);
            },
            None => {
                lemma_interspersed_value(args.items, None, true, env, sepv);
                lemma_join_sep_free(args.items, env, sepv, e, sepv);
                assert(sepv == s.value(env, e));
            },
        },
    }
    assert(concat_groups(groups, env, sepv) == args.value(env));
    if groups.len() == 0 {
    } else if groups.len() == 1 && binding is None {
        assert(groups.drop_last() =~= Seq::<GroupView>::empty());
        assert(concat_groups(groups.drop_last(), env, sepv) =~= Seq::<char>::empty());
        assert(groups.last() == groups[0]);
        assert(concat_groups(groups, env, sepv) =~= groups[0].value(env, sepv));
    } else {
        lemma_pieces_value(groups, env, sepv);
    }
}

/// The items that a group is made of.
pub open spec fn group_items(g: GroupView) -> Seq<ItemView> {
    match g {
        GroupView::Const(es) => es.map_values(|e: ExprView| ItemView::Const(e)),
        GroupView::Dynamic(e) => seq![ItemView::Dynamic(e)],
    }
}

/// The items that the groups are made of, one after the other.
pub open spec fn ungrouped(gs: Seq<GroupView>) -> Seq<ItemView>
    decreases gs.len(),
{
    if gs.len() == 0 {
        Seq::empty()
    } else {
        ungrouped(gs.drop_last()) + group_items(gs.last())
    }
}

/// Grouping loses and reorders nothing, makes no empty constant group, and
/// leaves no two constant groups side by side.
pub proof fn lemma_grouped_shape(items: Seq<ItemView>)
    ensures
        ungrouped(grouped(items)) == items,
        forall|i: int| 0 <= i < grouped(items).len() ==> (#[trigger] grouped(items)[i] matches GroupView::Const(es)
            ==> es.len() > 0),
        forall|i: int| 0 <= i < grouped(items).len() - 1 ==> !(#[trigger] grouped(items)[i] is Const
            && grouped(items)[i + 1] is Const),
    decreases items.len(),
{
    if items.len() > 0 {
        let shorter = items.drop_last();
        let prev = grouped(shorter);
        lemma_grouped_shape(shorter);
        let gs = grouped(items);
        match items.last() {
            ItemView::Dynamic(e) => {
                assert(gs.drop_last() =~= prev);
                assert(group_items(GroupView::Dynamic(e)) =~= seq![items.last()]);
                assert(shorter.push(items.last()) =~= items);
            },
            ItemView::Const(e) => {
                if prev.len() > 0 && prev.last() is Const {
                    let es = prev.last()->Const_0;
                    assert(gs.drop_last() =~= prev.drop_last());
                    assert(group_items(GroupView::Const(es.push(e))) =~= group_items(GroupView::Const(es)).push(
                        ItemView::Const(e),
                    ));
                    assert(ungrouped(prev) == ungrouped(prev.drop_last()) + group_items(prev.last()));
                    assert(ungrouped(gs) =~= shorter.push(items.last()));
                    assert(shorter.push(items.last()) =~= items);
                } else {
                    assert(gs.drop_last() =~= prev);
                    assert(group_items(GroupView::Const(seq![e])) =~= seq![items.last()]);
                    assert(shorter.push(items.last()) =~= items);
                }
            },
        }
    }
}

impl PieceView {
    /// The tag that the helper constants of a byte-level constant carry.
    pub open spec fn tag(self) -> Option<usize> {
        match self {
            PieceView::Const(crate::fold::ConstGroupView::Bytes { tag, .. }) => Some(tag),
            _ => None,
        }
    }
}

/// The helper constants of different pieces of a built string never share a
/// name: piece `i` carries tag `i`.
pub proof fn lemma_tags_distinct(args: ArgsView, i: int, j: int)
    requires
        expansion_of(args) is Build,
        0 <= i < j < expansion_of(args)->pieces.len(),
        j <= usize::MAX,
    ensures
        expansion_of(args)->pieces[i].tag() is Some && expansion_of(args)->pieces[j].tag() is Some
            ==> expansion_of(args)->pieces[i].tag() != expansion_of(args)->pieces[j].tag(),
        expansion_of(args)->pieces[i].tag() is Some ==> expansion_of(args)->pieces[i].tag() == Some(i as usize),
{
}

/// Items that are all constant.
pub open spec fn all_const(items: Seq<ItemView>) -> bool {
    forall|i: int| 0 <= i < items.len() ==> (#[trigger] items[i]) is Const
}

proof fn lemma_interspersed_upto_const(items: Seq<ItemView>, k: int, sep_lit: Option<Seq<char>>)
    requires
        0 <= k <= items.len(),
        all_const(items),
    ensures
        all_const(interspersed_upto(items, k, sep_lit, false)),
    decreases k,
{
    if k > 0 {
        lemma_interspersed_upto_const(items, k - 1, sep_lit);
        let prev = interspersed_upto(items, k - 1, sep_lit, false);
        let gap = gap_before(items, k - 1, sep_lit, false);
        let cur = interspersed_upto(items, k, sep_lit, false);
        assert(cur == (prev + gap).push(fused_item(items, k - 1, sep_lit)));
        assert(items[k - 1] is Const);
        assert forall|i: int| 0 <= i < cur.len() implies (#[trigger] cur[i]) is Const by {
            if i < prev.len() {
                assert(cur[i] == prev[i]);
            } else if i < prev.len() + gap.len() {
                assert(cur[i] == gap[i - prev.len()]);
            }
        }
    }
}

proof fn lemma_grouped_const(items: Seq<ItemView>)
    requires
        all_const(items),
    ensures
        grouped(items).len() == (if items.len() == 0 { 0int } else { 1int }),
        items.len() > 0 ==> grouped(items)[0] is Const,
    decreases items.len(),
{
    if items.len() > 0 {
        let shorter = items.drop_last();
        assert(all_const(shorter)) by {
            assert forall|i: int| 0 <= i < shorter.len() implies (#[trigger] shorter[i]) is Const by {
                assert(shorter[i] == items[i]);
            }
        }
        lemma_grouped_const(shorter);
        assert(items.last() == items[items.len() - 1]);
    }
}

/// Constant pieces, with a string literal separator or none, expand to a
/// constant (or to the empty literal when there is no piece): the result can
/// stand where only a constant can.
pub proof fn lemma_all_const_is_constant(args: ArgsView)
    requires
        all_const(args.items),
        args.sep matches Some(s) ==> s.str_literal() is Some,
    ensures
        expansion_of(args) is Empty || expansion_of(args) is Constant,
{
    let items = separated_items(args);
    match args.sep {
        Some(s) => {
            lemma_interspersed_upto_const(args.items, args.items.len() as int, s.str_literal());
        },
        None => {},
    }
    lemma_grouped_const(items);
}

/// Without a separator to place, or with at most one item, the items stay as they are.
pub proof fn lemma_interspersed_identity(items: Seq<ItemView>, sep_lit: Option<Seq<char>>, sep_ident: bool)
    requires
        items.len() <= 1 || (sep_lit is None && !sep_ident),
    ensures
        interspersed(items, sep_lit, sep_ident) == items,
{
    lemma_interspersed_upto_identity(items, items.len() as int, sep_lit, sep_ident);
    assert(items.take(items.len() as int) =~= items);
}

proof fn lemma_interspersed_upto_identity(items: Seq<ItemView>, k: int, sep_lit: Option<Seq<char>>, sep_ident: bool)
    requires
        0 <= k <= items.len(),
        items.len() <= 1 || (sep_lit is None && !sep_ident),
    ensures
        interspersed_upto(items, k, sep_lit, sep_ident) == items.take(k),
    decreases k,
{
    if k == 0 {
        assert(items.take(0) =~= Seq::<ItemView>::empty());
    } else {
        lemma_interspersed_upto_identity(items, k - 1, sep_lit, sep_ident);
        assert(gap_before(items, k - 1, sep_lit, sep_ident) =~= Seq::<ItemView>::empty());
        assert(items.take(k) =~= items.take(k - 1).push(items[k - 1]));
    }
}

proof fn lemma_interspersed_upto_indices(
    items: Seq<ItemView>,
    k: int,
    sep_lit: Option<Seq<char>>,
    sep_ident: bool,
    lo: int,
    n: int,
)
    requires
        0 <= k <= items.len(),
        items_indices_between(items, lo, n),
    ensures
        items_indices_between(interspersed_upto(items, k, sep_lit, sep_ident), lo, n),
    decreases k,
{
    if k > 0 {
        lemma_interspersed_upto_indices(items, k - 1, sep_lit, sep_ident, lo, n);
        let prev = interspersed_upto(items, k - 1, sep_lit, sep_ident);
        let gap = gap_before(items, k - 1, sep_lit, sep_ident);
        let cur = interspersed_upto(items, k, sep_lit, sep_ident);
        assert(cur == (prev + gap).push(fused_item(items, k - 1, sep_lit)));
        assert(items[k - 1].expr().indices_between(lo, n));
        assert forall|i: int| 0 <= i < cur.len() implies (#[trigger] cur[i]).expr().indices_between(lo, n) by {
            if i < prev.len() {
                assert(cur[i] == prev[i]);
            } else if i < prev.len() + gap.len() {
                assert(cur[i] == gap[i - prev.len()]);
            }
        }
    }
}

proof fn lemma_grouped_indices(items: Seq<ItemView>, lo: int, n: int)
    requires
        items_indices_between(items, lo, n),
    ensures
        forall|i: int| 0 <= i < grouped(items).len() ==> match #[trigger] grouped(items)[i] {
            GroupView::Const(es) => exprs_indices_between(es, lo, n),
            GroupView::Dynamic(e) => e.indices_between(lo, n),
        },
    decreases items.len(),
{
    if items.len() > 0 {
        let shorter = items.drop_last();
        assert(items_indices_between(shorter, lo, n)) by {
            assert forall|i: int| 0 <= i < shorter.len() implies (#[trigger] shorter[i]).expr().indices_between(lo, n) by {
                assert(shorter[i] == items[i]);
            }
        }
        lemma_grouped_indices(shorter, lo, n);
        assert(items.last() == items[items.len() - 1]);
        let prev = grouped(shorter);
        let gs = grouped(items);
        assert forall|i: int| 0 <= i < gs.len() implies match #[trigger] gs[i] {
            GroupView::Const(es) => exprs_indices_between(es, lo, n),
            GroupView::Dynamic(e) => e.indices_between(lo, n),
        } by {
            if i < prev.len() {
                if i < prev.len() - 1 || !(items.last() is Const && prev.last() is Const) {
                    assert(gs[i] == prev[i]);
                } else {
                    let es = prev.last()->Const_0;
                    assert(prev[i] == prev.last());
                    assert(gs[i] == GroupView::Const(es.push(items.last().expr())));
                    assert forall|j: int| 0 <= j < es.len() + 1 implies (#[trigger] es.push(items.last().expr())[j]).indices_between(lo, n) by {
                        if j < es.len() {
                            assert(es.push(items.last().expr())[j] == es[j]);
                        }
                    }
                }
            }
        }
    }
}

/// Every input expression that the expansion refers to, apart from the bound
/// separator, is one of the pieces': a separator that is no literal is
/// evaluated once, in its binding, and the expanded code can be run on the
/// values of the arguments.
pub proof fn lemma_expansion_indices(args: ArgsView, lo: int, n: int)
    requires
        items_indices_between(args.items, lo, n),
    ensures
        expansion_of(args).body_indices_between(lo, n),
        bound_separator(args) matches Some(e) ==> args.sep matches Some(s) && e == s.expr(),
{
    let items = separated_items(args);
    match args.sep {
        Some(s) => match s.str_literal() {
            Some(l) => lemma_interspersed_upto_indices(args.items, args.items.len() as int, Some(l), false, lo, n),
            None => lemma_interspersed_upto_indices(args.items, args.items.len() as int, None, true, lo, n),
        },
        None => {},
    }
    lemma_grouped_indices(items, lo, n);
    let groups = grouped(items);
    if groups.len() > 0 {
        assert(match groups[0] {
            GroupView::Const(es) => exprs_indices_between(es, lo, n),
            GroupView::Dynamic(e) => e.indices_between(lo, n),
        });
    }
    match expansion_of(args) {
        ExpansionView::Build { separator, pieces } => {
            assert forall|i: int| 0 <= i < pieces.len() implies (#[trigger] pieces[i]).indices_between(lo, n) by {
                assert(pieces[i] == piece_of(groups[i], i));
                assert(match groups[i] {
                    GroupView::Const(es) => exprs_indices_between(es, lo, n),
                    GroupView::Dynamic(e) => e.indices_between(lo, n),
                });
            }
        },
        _ => {},
    }
}

/// The arguments read from the input expand to code that can run on the
/// values of the input's expressions, and in which the separator's own
/// expression stands only in its binding.
pub proof fn lemma_parsed_expansion_indices(args: ArgsView, lo: int, n: int)
    requires
        args.numbered(lo, n),
        0 <= lo <= 1,
        args.sep is Some ==> lo == 1 && n >= 1,
    ensures
        expansion_of(args).indices_below(n),
        args.sep is Some ==> expansion_of(args).body_indices_between(1, n),
{
    lemma_expansion_indices(args, lo, n);
    let ex = expansion_of(args);
    if lo == 1 {
        assert(ex.body_indices_between(1, n));
    }
    if let ExpansionView::Build { separator: Some(e), .. } = ex {
        assert(e == args.sep->0.expr());
        assert(e.indices_between(0, 1));
    }
    assert(ex.body_indices_between(0, n)) by {
        match ex {
            ExpansionView::Constant(g) => {
                assert forall|i: int| 0 <= i < g.exprs().len() implies (#[trigger] g.exprs()[i]).indices_between(0, n) by {
                    assert(g.exprs()[i].indices_between(lo, n));
                }
            },
            ExpansionView::Build { pieces, .. } => {
                assert forall|i: int| 0 <= i < pieces.len() implies (#[trigger] pieces[i]).indices_between(0, n) by {
                    assert(pieces[i].indices_between(lo, n));
                    if let PieceView::Const(g) = pieces[i] {
                        assert forall|j: int| 0 <= j < g.exprs().len() implies (#[trigger] g.exprs()[j]).indices_between(0, n) by {
                            assert(g.exprs()[j].indices_between(lo, n));
                        }
                    }
                }
            },
            _ => {},
        }
    }
}

proof fn lemma_runtime_append(a: Seq<ItemView>, b: Seq<ItemView>)
    ensures
        runtime_indices(a + b) == runtime_indices(a) + runtime_indices(b),
    decreases b.len(),
{
    if b.len() == 0 {
        assert(a + b =~= a);
        assert(runtime_indices(a) + Seq::<usize>::empty() =~= runtime_indices(a));
    } else {
        lemma_runtime_append(a, b.drop_last());
        assert((a + b).drop_last() =~= a + b.drop_last());
        assert((a + b).last() == b.last());
    }
}

proof fn lemma_runtime_single(x: ItemView)
    ensures
        runtime_indices(seq![x]) == match x {
            ItemView::Dynamic(e) => index_seq(e.input_index()),
            ItemView::Const(_) => Seq::<usize>::empty(),
        },
{
    assert(seq![x].drop_last() =~= Seq::<ItemView>::empty());
    assert(runtime_indices(Seq::<ItemView>::empty()) =~= Seq::<usize>::empty());
    assert(Seq::<usize>::empty() + runtime_indices(seq![x]).skip(0) =~= runtime_indices(seq![x]));
}

proof fn lemma_interspersed_upto_runtime(items: Seq<ItemView>, k: int, sep_lit: Option<Seq<char>>, sep_ident: bool)
    requires
        0 <= k <= items.len(),
    ensures
        runtime_indices(interspersed_upto(items, k, sep_lit, sep_ident)) == runtime_indices(items.take(k)),
    decreases k,
{
    if k == 0 {
        assert(items.take(0) =~= Seq::<ItemView>::empty());
    } else {
        lemma_interspersed_upto_runtime(items, k - 1, sep_lit, sep_ident);
        let prev = interspersed_upto(items, k - 1, sep_lit, sep_ident);
        let gap = gap_before(items, k - 1, sep_lit, sep_ident);
        let fused = fused_item(items, k - 1, sep_lit);
        assert((prev + gap).push(fused) =~= (prev + gap) + seq![fused]);
        lemma_runtime_append(prev + gap, seq![fused]);
        lemma_runtime_append(prev, gap);
        lemma_runtime_single(fused);
        lemma_runtime_single(items[k - 1]);
        if gap.len() == 1 {
            lemma_runtime_single(gap[0]);
            assert(gap =~= seq![gap[0]]);
        } else {
            assert(gap =~= Seq::<ItemView>::empty());
        }
        assert(runtime_indices(gap) =~= Seq::<usize>::empty());
        assert(items.take(k) =~= items.take(k - 1) + seq![items[k - 1]]);
        lemma_runtime_append(items.take(k - 1), seq![items[k - 1]]);
        assert(runtime_indices(seq![fused]) == runtime_indices(seq![items[k - 1]]));
        assert(runtime_indices(interspersed_upto(items, k, sep_lit, sep_ident))
            =~= runtime_indices(items.take(k)));
    }
}

proof fn lemma_grouped_runtime(items: Seq<ItemView>)
    ensures
        groups_runtime(grouped(items)) == runtime_indices(items),
    decreases items.len(),
{
    if items.len() > 0 {
        let prev = grouped(items.drop_last());
        lemma_grouped_runtime(items.drop_last());
        match items.last() {
            ItemView::Dynamic(e) => {
                assert(prev.push(GroupView::Dynamic(e)).drop_last() =~= prev);
            },
            ItemView::Const(e) => {
                if prev.len() > 0 && prev.last() is Const {
                    let es = prev.last()->Const_0;
                    let upd = prev.update(prev.len() - 1, GroupView::Const(es.push(e)));
                    assert(upd.drop_last() =~= prev.drop_last());
                    assert(groups_runtime(upd) =~= groups_runtime(prev));
                    assert(runtime_indices(items) =~= runtime_indices(items.drop_last()));
                } else {
                    assert(prev.push(GroupView::Const(seq![e])).drop_last() =~= prev);
                    assert(runtime_indices(items) =~= runtime_indices(items.drop_last()));
                    assert(groups_runtime(prev.push(GroupView::Const(seq![e]))) =~= groups_runtime(prev));
                }
            },
        }
    }
}

proof fn lemma_pieces_runtime(gs: Seq<GroupView>)
    ensures
        pieces_runtime(Seq::new(gs.len(), |i: int| piece_of(gs[i], i))) == groups_runtime(gs),
    decreases gs.len(),
{
    if gs.len() > 0 {
        let ps = Seq::new(gs.len(), |i: int| piece_of(gs[i], i));
        let shorter = gs.drop_last();
        lemma_pieces_runtime(shorter);
        assert(ps.drop_last() =~= Seq::new(shorter.len(), |i: int| piece_of(shorter[i], i)));
    }
}

/// Running the expanded code evaluates, when there is at least one piece, the
/// bound separator first (once, however many gaps it fills), then each
/// dynamic piece once, left to right; literals, constant blocks and a string
/// literal separator are not evaluated at run time, and with no piece nothing
/// is evaluated.
#[verifier::rlimit(40)]
pub proof fn lemma_runtime_order(args: ArgsView)
    ensures
        expansion_of(args).runtime_order() == (if args.items.len() > 0 {
            match bound_separator(args) {
                Some(e) => index_seq(e.input_index()),
                None => Seq::<usize>::empty(),
            }
        } else {
            Seq::<usize>::empty()
        }) + runtime_indices(args.items),
{
    let items = separated_items(args);
    let groups = grouped(items);
    match args.sep {
        Some(s) => {
            let (sl, si) = match s.str_literal() {
                Some(l) => (Some(l), false),
                None => (None, true),
            };
            lemma_interspersed_upto_runtime(args.items, args.items.len() as int, sl, si);
            assert(args.items.take(args.items.len() as int) =~= args.items);
        },
        None => {},
    }
    assert(runtime_indices(items) == runtime_indices(args.items));
    lemma_grouped_runtime(items);
    lemma_grouped_value(items, Seq::empty(), Seq::empty());
    if args.items.len() == 0 {
        assert(runtime_indices(args.items) =~= Seq::<usize>::empty());
        if args.sep is Some {
            assert(interspersed_upto(args.items, 0, None, true) =~= Seq::<ItemView>::empty());
            assert(interspersed_upto(args.items, 0, match args.sep->0.str_literal() { Some(l) => Some(l), None => None }, false)
                =~= Seq::<ItemView>::empty());
        }
        assert(items.len() == 0);
        assert(groups =~= Seq::<GroupView>::empty());
    } else {
        lemma_grouped_shape(items);
        if groups.len() == 0 {
            assert(ungrouped(groups) =~= Seq::<ItemView>::empty());
            lemma_interspersed_len_ge(args);
        }
    }
    if groups.len() == 1 && bound_separator(args) is None {
        assert(groups.drop_last() =~= Seq::<GroupView>::empty());
        assert(groups_runtime(Seq::<GroupView>::empty()) =~= Seq::<usize>::empty());
        assert(groups.last() == groups[0]);
    } else if groups.len() > 0 {
        lemma_pieces_runtime(groups);
    }
}

/// Placing the separator keeps every item: there are at least as many items after.
proof fn lemma_interspersed_len_ge(args: ArgsView)
    ensures
        separated_items(args).len() >= args.items.len(),
{
    match args.sep {
        Some(s) => {
            let (sl, si) = match s.str_literal() {
                Some(l) => (Some(l), false),
                None => (None, true),
            };
            lemma_interspersed_upto_len(args.items, args.items.len() as int, sl, si);
        },
        None => {},
    }
}

/// The number of places among the first `k` items where a literal separator
/// stands on its own: between two neighbours that are both no string literal.
pub open spec fn standalone_gaps(items: Seq<ItemView>, k: int) -> nat
    decreases k,
{
    if k <= 1 {
        0
    } else {
        standalone_gaps(items, k - 1) + if items[k - 2].str_literal() is None && items[k - 1].str_literal() is None {
            1nat
        } else {
            0nat
        }
    }
}

proof fn lemma_interspersed_upto_len(items: Seq<ItemView>, k: int, sep_lit: Option<Seq<char>>, sep_ident: bool)
    requires
        0 <= k <= items.len(),
    ensures
        interspersed_upto(items, k, sep_lit, sep_ident).len() >= k,
        sep_lit is Some ==> interspersed_upto(items, k, sep_lit, sep_ident).len() == k + standalone_gaps(items, k),
    decreases k,
{
    if k > 0 {
        lemma_interspersed_upto_len(items, k - 1, sep_lit, sep_ident);
    }
}

/// With a string literal separator, each item stays one item, and a separator
/// of its own stands exactly between each two neighbours that are both no
/// string literal.
pub proof fn lemma_interspersed_len(items: Seq<ItemView>, sep: Seq<char>)
    ensures
        interspersed(items, Some(sep), false).len() == items.len() + standalone_gaps(items, items.len() as int),
{
    lemma_interspersed_upto_len(items, items.len() as int, Some(sep), false);
}

/// A constant group is written with `concat!` exactly when every piece of it
/// is a literal (`concat!` takes nothing else); otherwise its bytes are joined
/// in helper constants that carry the group's tag. Either way it keeps its pieces.
pub proof fn lemma_const_group_strategy(exprs: Seq<ExprView>, tag: usize)
    ensures
        const_group_of(exprs, tag).exprs() == exprs,
        const_group_of(exprs, tag) is Concat <==> (forall|i: int| 0 <= i < exprs.len() ==> (#[trigger] exprs[i]).is_literal()),
        const_group_of(exprs, tag) matches ConstGroupView::Bytes { tag: t, .. } ==> t == tag,
{
}

/// Every constant that `fconcat!` expands to, alone or as a piece of a built
/// string, is written with `concat!` exactly when every piece of it is a
/// literal; a lone constant carries tag 0 and piece `k` tag `k` (as a `usize`).
pub proof fn lemma_expansion_strategies(args: ArgsView)
    ensures
        expansion_of(args) matches ExpansionView::Constant(g) ==> {
            &&& (g is Concat <==> (forall|i: int| 0 <= i < g.exprs().len() ==> (#[trigger] g.exprs()[i]).is_literal()))
            &&& (g matches ConstGroupView::Bytes { tag, .. } ==> tag == 0)
        },
        expansion_of(args) matches ExpansionView::Build { pieces, .. } ==> forall|k: int|
            0 <= k < pieces.len() ==> (#[trigger] pieces[k] matches PieceView::Const(g) ==> {
                &&& (g is Concat <==> (forall|i: int| 0 <= i < g.exprs().len() ==> (#[trigger] g.exprs()[i]).is_literal()))
                &&& (g matches ConstGroupView::Bytes { tag, .. } ==> tag == k as usize)
            }),
{
    let groups = grouped(separated_items(args));
    match expansion_of(args) {
        ExpansionView::Constant(g) => {
            if let GroupView::Const(es) = groups[0] {
                lemma_const_group_strategy(es, 0);
            }
        },
        ExpansionView::Build { pieces, .. } => {
            assert forall|k: int| 0 <= k < pieces.len() implies (#[trigger] pieces[k] matches PieceView::Const(g) ==> {
                &&& (g is Concat <==> (forall|i: int| 0 <= i < g.exprs().len() ==> (#[trigger] g.exprs()[i]).is_literal()))
                &&& (g matches ConstGroupView::Bytes { tag, .. } ==> tag == k as usize)
            }) by {
                assert(pieces[k] == piece_of(groups[k], k));
                if let GroupView::Const(es) = groups[k] {
                    lemma_const_group_strategy(es, k as usize);
                }
            }
        },
        _ => {},
    }
}

proof fn lemma_interspersed_upto_sep_dynamic(items: Seq<ItemView>, k: int, sep_lit: Option<Seq<char>>, sep_ident: bool)
    requires
        0 <= k <= items.len(),
        forall|i: int| 0 <= i < items.len() ==> (#[trigger] items[i]).expr().is_input(),
    ensures
        forall|i: int| 0 <= i < interspersed_upto(items, k, sep_lit, sep_ident).len()
            ==> (#[trigger] interspersed_upto(items, k, sep_lit, sep_ident)[i]).expr() is SepName
            ==> interspersed_upto(items, k, sep_lit, sep_ident)[i] is Dynamic,
    decreases k,
{
    if k > 0 {
        lemma_interspersed_upto_sep_dynamic(items, k - 1, sep_lit, sep_ident);
        let prev = interspersed_upto(items, k - 1, sep_lit, sep_ident);
        let gap = gap_before(items, k - 1, sep_lit, sep_ident);
        let cur = interspersed_upto(items, k, sep_lit, sep_ident);
        assert(cur == (prev + gap).push(fused_item(items, k - 1, sep_lit)));
        assert(items[k - 1].expr().is_input());
        assert forall|i: int| 0 <= i < cur.len() && (#[trigger] cur[i]).expr() is SepName implies cur[i] is Dynamic by {
            if i < prev.len() {
                assert(cur[i] == prev[i]);
            } else if i < prev.len() + gap.len() {
                assert(cur[i] == gap[i - prev.len()]);
            }
        }
    }
}

/// A separator bound to a name is read at run time: every place that refers to
/// its name is a dynamic item, never part of a constant.
pub proof fn lemma_bound_separator_dynamic(items: Seq<ItemView>, sep_lit: Option<Seq<char>>, sep_ident: bool)
    requires
        forall|i: int| 0 <= i < items.len() ==> (#[trigger] items[i]).expr().is_input(),
    ensures
        forall|i: int| 0 <= i < interspersed(items, sep_lit, sep_ident).len()
            ==> (#[trigger] interspersed(items, sep_lit, sep_ident)[i]).expr() is SepName
            ==> interspersed(items, sep_lit, sep_ident)[i] is Dynamic,
{
    lemma_interspersed_upto_sep_dynamic(items, items.len() as int, sep_lit, sep_ident);
}

proof fn lemma_grouped_const_exprs(items: Seq<ItemView>)
    requires
        forall|i: int| 0 <= i < items.len() ==> (#[trigger] items[i]) is Const ==> !(items[i].expr() is SepName),
    ensures
        forall|k: int| 0 <= k < grouped(items).len() ==> (#[trigger] grouped(items)[k] matches GroupView::Const(es)
            ==> forall|j: int| 0 <= j < es.len() ==> !((#[trigger] es[j]) is SepName)),
    decreases items.len(),
{
    if items.len() > 0 {
        let shorter = items.drop_last();
        assert forall|i: int| 0 <= i < shorter.len() implies (#[trigger] shorter[i]) is Const ==> !(shorter[i].expr() is SepName) by {
            assert(shorter[i] == items[i]);
        }
        lemma_grouped_const_exprs(shorter);
        assert(items.last() == items[items.len() - 1]);
        let prev = grouped(shorter);
        let gs = grouped(items);
        assert forall|k: int| 0 <= k < gs.len() implies (#[trigger] gs[k] matches GroupView::Const(es)
            ==> forall|j: int| 0 <= j < es.len() ==> !((#[trigger] es[j]) is SepName)) by {
            if k < prev.len() {
                if k < prev.len() - 1 || !(items.last() is Const && prev.last() is Const) {
                    assert(gs[k] == prev[k]);
                } else {
                    let es = prev.last()->Const_0;
                    assert(prev[k] == prev.last());
                    assert(gs[k] == GroupView::Const(es.push(items.last().expr())));
                    assert forall|j: int| 0 <= j < es.len() + 1 implies !((#[trigger] es.push(items.last().expr())[j]) is SepName) by {
                        if j < es.len() {
                            assert(es.push(items.last().expr())[j] == es[j]);
                        }
                    }
                }
            }
        }
    }
}

/// No constant that `fconcat!` expands to holds the bound separator, which is
/// only known at run time.
pub proof fn lemma_constants_free_of_separator(args: ArgsView)
    requires
        args.is_input(),
    ensures
        expansion_of(args) matches ExpansionView::Constant(g) ==> forall|j: int|
            0 <= j < g.exprs().len() ==> !((#[trigger] g.exprs()[j]) is SepName),
        expansion_of(args) matches ExpansionView::Build { pieces, .. } ==> forall|k: int|
            0 <= k < pieces.len() ==> (#[trigger] pieces[k] matches PieceView::Const(g) ==> forall|j: int|
                0 <= j < g.exprs().len() ==> !((#[trigger] g.exprs()[j]) is SepName)),
{
    let items = separated_items(args);
    match args.sep {
        Some(s) => {
            let (sl, si) = match s.str_literal() {
                Some(l) => (Some(l), false),
                None => (None, true),
            };
            lemma_bound_separator_dynamic(args.items, sl, si);
        },
        None => {},
    }
    assert forall|i: int| 0 <= i < items.len() implies (#[trigger] items[i]) is Const ==> !(items[i].expr() is SepName) by {
        if args.sep is None {
            assert(items[i] == args.items[i]);
            assert(args.items[i].expr().is_input());
        }
    }
    lemma_grouped_const_exprs(items);
    let groups = grouped(items);
    match expansion_of(args) {
        ExpansionView::Constant(g) => {
            if let GroupView::Const(es) = groups[0] {
                lemma_const_group_strategy(es, 0);
            }
        },
        ExpansionView::Build { pieces, .. } => {
            assert forall|k: int| 0 <= k < pieces.len() implies (#[trigger] pieces[k] matches PieceView::Const(g)
                ==> forall|j: int| 0 <= j < g.exprs().len() ==> !((#[trigger] g.exprs()[j]) is SepName)) by {
                assert(pieces[k] == piece_of(groups[k], k));
                if let GroupView::Const(es) = groups[k] {
                    lemma_const_group_strategy(es, k as usize);
                }
            }
        },
        _ => {},
    }
}

proof fn lemma_interspersed_upto_keeps_inputs(items: Seq<ItemView>, k: int, sep_lit: Option<Seq<char>>, sep_ident: bool)
    requires
        0 <= k <= items.len(),
    ensures
        forall|i: int| 0 <= i < interspersed_upto(items, k, sep_lit, sep_ident).len()
            && (#[trigger] interspersed_upto(items, k, sep_lit, sep_ident)[i]).expr().input_index() is Some
            ==> exists|j: int| 0 <= j < k && interspersed_upto(items, k, sep_lit, sep_ident)[i] == items[j],
    decreases k,
{
    if k > 0 {
        lemma_interspersed_upto_keeps_inputs(items, k - 1, sep_lit, sep_ident);
        let prev = interspersed_upto(items, k - 1, sep_lit, sep_ident);
        let gap = gap_before(items, k - 1, sep_lit, sep_ident);
        let cur = interspersed_upto(items, k, sep_lit, sep_ident);
        assert(cur == (prev + gap).push(fused_item(items, k - 1, sep_lit)));
        assert forall|i: int| 0 <= i < cur.len() && (#[trigger] cur[i]).expr().input_index() is Some
            implies exists|j: int| 0 <= j < k && cur[i] == items[j] by {
            if i < prev.len() {
                assert(cur[i] == prev[i]);
                let j = choose|j: int| 0 <= j < k - 1 && prev[i] == items[j];
                assert(cur[i] == items[j]);
            } else if i < prev.len() + gap.len() {
                assert(cur[i] == gap[i - prev.len()]);
            } else {
                assert(cur[i] == fused_item(items, k - 1, sep_lit));
                assert(cur[i] == items[k - 1]);
            }
        }
    }
}

/// Placing the separator never alters an item of the input: whatever refers to
/// an input expression is one of the input's items as it was; a literal that
/// takes in a separator becomes a literal made while folding.
pub proof fn lemma_interspersed_keeps_inputs(items: Seq<ItemView>, sep_lit: Option<Seq<char>>, sep_ident: bool)
    ensures
        forall|i: int| 0 <= i < interspersed(items, sep_lit, sep_ident).len()
            && (#[trigger] interspersed(items, sep_lit, sep_ident)[i]).expr().input_index() is Some
            ==> exists|j: int| 0 <= j < items.len() && interspersed(items, sep_lit, sep_ident)[i] == items[j],
{
    lemma_interspersed_upto_keeps_inputs(items, items.len() as int, sep_lit, sep_ident);
}

} // verus!
