use vstd::prelude::*;

use crate::model::{Expr, ExprView, Item, ItemView, Shape, exprs_view, index_seq, items_view, strings_view};

verus! {

/// A run of pieces that becomes one piece of the output.
#[derive(Debug, Clone, PartialEq, Eq)]
pub enum Group {
    /// Consecutive constant pieces, concatenated at compile time.
    Const(Vec<Expr>),
    /// One piece known only at run time.
    Dynamic(Expr),
}

/// The model of a [`Group`].
pub enum GroupView {
    Const(Seq<ExprView>),
    Dynamic(ExprView),
}

impl View for Group {
    type V = GroupView;

    open spec fn view(&self) -> GroupView {
        match self {
            Group::Const(es) => GroupView::Const(exprs_view(es@)),
            Group::Dynamic(e) => GroupView::Dynamic(e@),
        }
    }
}

/// The models of a sequence of groups.
pub open spec fn groups_view(groups: Seq<Group>) -> Seq<GroupView> {
    groups.map_values(|g: Group| g@)
}

/// The model of an optional string.
pub open spec fn opt_str_view(s: Option<String>) -> Option<Seq<char>> {
    match s {
        Some(s) => Some(s@),
        None => None,
    }
}

/// The separator that stands on its own between item `i - 1` and item `i`.
///
/// A literal separator is fused into a neighbouring string literal where there
/// is one (into the left one first); a separator that is not a literal is
/// referred to by its bound name, where there is such a name.
pub open spec fn gap_before(
    items: Seq<ItemView>,
    i: int,
    sep_lit: Option<Seq<char>>,
    sep_ident: bool,
) -> Seq<ItemView> {
    if i <= 0 {
        Seq::empty()
    } else {
        match sep_lit {
            Some(s) => if items[i - 1].str_literal() is Some || items[i].str_literal() is Some {
                Seq::empty()
            } else {
                seq![ItemView::Const(ExprView::Str(s))]
            },
            None => if sep_ident {
                seq![ItemView::Dynamic(ExprView::SepName)]
            } else {
                Seq::empty()
            },
        }
    }
}

/// Item `i` with the literal separators that are fused into it: a string
/// literal takes the separator after it (unless it is the last item), and the
/// one before it when the item before it is no string literal.
pub open spec fn fused_item(items: Seq<ItemView>, i: int, sep_lit: Option<Seq<char>>) -> ItemView {
    if let Some(s) = sep_lit {
        if let Some(l) = items[i].str_literal() {
            let before = i > 0 && items[i - 1].str_literal() is None;
            let after = i + 1 < items.len();
            if before || after {
                ItemView::Const(
                    ExprView::Str(
                        (if before { s } else { Seq::empty() }) + l + (if after { s } else { Seq::empty() }),
                    ),
                )
            } else {
                items[i]
            }
        } else {
            items[i]
        }
    } else {
        items[i]
    }
}

/// The first `k` items with the separators before and inside them.
pub open spec fn interspersed_upto(
    items: Seq<ItemView>,
    k: int,
    sep_lit: Option<Seq<char>>,
    sep_ident: bool,
) -> Seq<ItemView>
    decreases k,
{
    if k <= 0 {
        Seq::empty()
    } else {
        (interspersed_upto(items, k - 1, sep_lit, sep_ident) + gap_before(items, k - 1, sep_lit, sep_ident))
            .push(fused_item(items, k - 1, sep_lit))
    }
}

/// The items with the separator placed between each two of them.
pub open spec fn interspersed(items: Seq<ItemView>, sep_lit: Option<Seq<char>>, sep_ident: bool) -> Seq<ItemView> {
    interspersed_upto(items, items.len() as int, sep_lit, sep_ident)
}

/// The groups of `items`: each run of constant items makes one constant group,
/// each dynamic item a group of its own.
pub open spec fn grouped(items: Seq<ItemView>) -> Seq<GroupView>
    decreases items.len(),
{
    if items.len() == 0 {
        Seq::empty()
    } else {
        let prev = grouped(items.drop_last());
        match items.last() {
            ItemView::Dynamic(e) => prev.push(GroupView::Dynamic(e)),
            ItemView::Const(e) => if prev.len() > 0 && prev.last() is Const {
                prev.update(prev.len() - 1, GroupView::Const(prev.last()->Const_0.push(e)))
            } else {
                prev.push(GroupView::Const(seq![e]))
            },
        }
    }
}

/// The string value of an item that is a constant string literal.
pub fn as_lit_str(item: &Item) -> (r: Option<String>)
    ensures
        opt_str_view(r) == item@.str_literal(),
{
    match item {
        Item::Const(Expr::Whole { shape: Shape::Str(s), .. }) => Some(s.clone()),
        Item::Const(Expr::ConstTail { shape: Shape::Str(s), .. }) => Some(s.clone()),
        Item::Const(Expr::Str(s)) => Some(s.clone()),
        _ => None,
    }
}

/// A string literal expression for `value`.
fn str_lit_expr(value: String) -> (e: Expr)
    ensures
        e@ == ExprView::Str(value@),
{
    Expr::Str(value)
}

/// The expression that refers to the bound separator.
fn ident_expr() -> (e: Expr)
    ensures
        e@ == ExprView::SepName,
{
    Expr::SepName
}

/// `v` in the opposite order.
pub(crate) fn reversed<T>(v: Vec<T>) -> (r: Vec<T>)
    ensures
        r@.len() == v@.len(),
        forall|j: int| 0 <= j < v@.len() ==> r@[j] == v@[v@.len() - 1 - j],
{
    let ghost orig = v@;
    let mut v = v;
    let mut r: Vec<T> = Vec::new();
    while v.len() > 0
        invariant
            v@.len() + r@.len() == orig.len(),
            forall|j: int| 0 <= j < v@.len() ==> v@[j] == orig[j],
            forall|j: int| 0 <= j < r@.len() ==> r@[j] == orig[orig.len() - 1 - j],
        decreases v@.len(),
    {
        let x = v.pop().unwrap();
        r.push(x);
    }
    r
}

/// Places the separator between each two items, fusing a literal separator
/// into neighbouring string literals.
///
/// `sep_lit` is the separator when it is a string literal; `sep_ident` says
/// whether a separator that is not one has been bound to a name.
pub fn intersperse_separator(items: Vec<Item>, sep_lit: Option<String>, sep_ident: bool) -> (out: Vec<Item>)
    ensures
        items_view(out@) == interspersed(items_view(items@), opt_str_view(sep_lit), sep_ident),
        forall|i: int| 0 <= i < out@.len() && (#[trigger] items_view(out@)[i]).expr().input_index() is Some
            ==> exists|j: int| 0 <= j < items@.len() && items_view(out@)[i] == items_view(items@)[j],
{
    proof {
        crate::laws::lemma_interspersed_keeps_inputs(items_view(items@), opt_str_view(sep_lit), sep_ident);
    }
    let ghost iv = items_view(items@);
    let ghost sl = opt_str_view(sep_lit);
    let n = items.len();
    if n <= 1 {
        proof {
            if n == 1 {
                assert(interspersed_upto(iv, 0, sl, sep_ident) =~= Seq::<ItemView>::empty());
                assert(items_view(items@) =~= seq![iv[0]]);
            } else {
                assert(items_view(items@) =~= Seq::<ItemView>::empty());
            }
        }
        return items;
    }
    let mut rest = reversed(items);
    let mut out: Vec<Item> = Vec::new();
    let mut current = rest.pop().unwrap();
    let mut k: usize = 1;
    proof {
        assert(items_view(out@) =~= interspersed_upto(iv, 0, sl, sep_ident) + gap_before(iv, 0, sl, sep_ident));
    }
    while k < n
        invariant
            1 <= k <= n,
            n == iv.len(),
            sl == opt_str_view(sep_lit),
            rest@.len() == n - k,
            forall|j: int| 0 <= j < rest@.len() ==> (#[trigger] rest@[j])@ == iv[n - 1 - j],
            items_view(out@) == interspersed_upto(iv, k - 1, sl, sep_ident) + gap_before(iv, k - 1, sl, sep_ident),
            current@ == partly_fused(iv, k - 1, sl),
        decreases n - k,
    {
        let next = rest.pop().unwrap();
        assert(next@ == iv[k as int]);
        let left_lit = as_lit_str(&current);
        let right_lit = as_lit_str(&next);
        let ghost before = items_view(out@);
        let ghost prefix = interspersed_upto(iv, k as int, sl, sep_ident);
        assert(prefix == before.push(fused_item(iv, k - 1, sl)));
        match &sep_lit {
            Some(s) => {
                match left_lit {
                    Some(l) => {
                        let mut text = l;
                        text.append(s.as_str());
                        out.push(Item::Const(str_lit_expr(text)));
                        current = next;
                        proof {
                            assert(items_view(out@) =~= before.push(fused_item(iv, k - 1, sl)));
                            assert(items_view(out@) =~= prefix + gap_before(iv, k as int, sl, sep_ident));
                        }
                    },
                    None => {
                        out.push(current);
                        match right_lit {
                            Some(r) => {
                                let mut text = s.clone();
                                text.append(r.as_str());
                                current = Item::Const(str_lit_expr(text));
                                proof {
                                    assert(items_view(out@) =~= prefix + gap_before(iv, k as int, sl, sep_ident));
                                }
                            },
                            None => {
                                out.push(Item::Const(str_lit_expr(s.clone())));
                                current = next;
                                proof {
                                    assert(items_view(out@) =~= prefix + gap_before(iv, k as int, sl, sep_ident));
                                }
                            },
                        }
                    },
                }
            },
            None => {
                out.push(current);
                if sep_ident {
                    out.push(Item::Dynamic(ident_expr()));
                }
                current = next;
                proof {
                    assert(items_view(out@) =~= prefix + gap_before(iv, k as int, sl, sep_ident));
                }
            },
        }
        k = k + 1;
    }
    let ghost before = items_view(out@);
    out.push(current);
    proof {
        assert(items_view(out@) =~= before.push(fused_item(iv, n - 1, sl)));
    }
    out
}

/// Item `i` with the separator before it fused in, before the one after it is known.
pub open spec fn partly_fused(items: Seq<ItemView>, i: int, sep_lit: Option<Seq<char>>) -> ItemView {
    if let Some(s) = sep_lit {
        if let Some(r) = items[i].str_literal() {
            if i > 0 && items[i - 1].str_literal() is None {
                ItemView::Const(ExprView::Str(s + r))
            } else {
                items[i]
            }
        } else {
            items[i]
        }
    } else {
        items[i]
    }
}

/// Groups the pieces: each run of constant pieces becomes one constant group,
/// each dynamic piece a group of its own, in order.
pub fn group(items: Vec<Item>) -> (groups: Vec<Group>)
    ensures
        groups_view(groups@) == grouped(items_view(items@)),
{
    let ghost iv = items_view(items@);
    let n = items.len();
    let mut rest = reversed(items);
    let mut groups: Vec<Group> = Vec::new();
    let mut pending: Vec<Expr> = Vec::new();
    let mut k: usize = 0;
    proof {
        assert(iv.take(0) =~= Seq::<ItemView>::empty());
        assert(groups_view(groups@) =~= Seq::<GroupView>::empty());
    }
    while k < n
        invariant
            k <= n,
            n == iv.len(),
            rest@.len() == n - k,
            forall|j: int| 0 <= j < rest@.len() ==> (#[trigger] rest@[j])@ == iv[n - 1 - j],
            groups@.len() > 0 ==> groups_view(groups@).last() is Dynamic,
            pending@.len() == 0 ==> groups_view(groups@) == grouped(iv.take(k as int)),
            pending@.len() > 0 ==> groups_view(groups@).push(GroupView::Const(exprs_view(pending@)))
                == grouped(iv.take(k as int)),
        decreases n - k,
    {
        let item = rest.pop().unwrap();
        assert(item@ == iv[k as int]);
        assert(iv.take(k + 1).drop_last() =~= iv.take(k as int));
        let ghost gs = groups_view(groups@);
        let ghost ps = exprs_view(pending@);
        match item {
            Item::Const(expr) => {
                pending.push(expr);
                proof {
                    assert(exprs_view(pending@) =~= ps.push(expr@));
                    if ps.len() > 0 {
                        assert(gs.push(GroupView::Const(ps)).update(gs.len() as int, GroupView::Const(ps.push(expr@)))
                            =~= gs.push(GroupView::Const(ps.push(expr@))));
                    } else {
                        assert(ps.push(expr@) =~= seq![expr@]);
                    }
                }
            },
            Item::Dynamic(expr) => {
                if pending.len() > 0 {
                    let mut taken: Vec<Expr> = Vec::new();
                    std::mem::swap(&mut taken, &mut pending);
                    groups.push(Group::Const(taken));
                    proof {
                        assert(groups_view(groups@) =~= gs.push(GroupView::Const(ps)));
                    }
                }
                let ghost gs2 = groups_view(groups@);
                groups.push(Group::Dynamic(expr));
                proof {
                    assert(groups_view(groups@) =~= gs2.push(GroupView::Dynamic(expr@)));
                }
            },
        }
        k = k + 1;
    }
    assert(iv.take(n as int) =~= iv);
    if pending.len() > 0 {
        let ghost gs = groups_view(groups@);
        groups.push(Group::Const(pending));
        proof {
            assert(groups_view(groups@) =~= gs.push(GroupView::Const(exprs_view(pending@))));
        }
    }
    groups
}

/// How a constant group is concatenated at compile time.
#[derive(Debug, Clone, PartialEq, Eq)]
pub enum ConstGroup {
    /// Every piece is a literal: `core::concat!` of the pieces.
    Concat(Vec<Expr>),
    /// Some piece is a named constant: the pieces' bytes are joined into an
    /// array at compile time, in constants whose names carry `tag`. The joining
    /// takes the steps of [`crate::bytes::concat_bytes`]; the expanded code
    /// writes them out, since that function is no `const fn` and cannot be
    /// called in constant position.
    Bytes { tag: usize, exprs: Vec<Expr> },
}

/// The model of a [`ConstGroup`].
pub enum ConstGroupView {
    Concat(Seq<ExprView>),
    Bytes { tag: usize, exprs: Seq<ExprView> },
}

impl View for ConstGroup {
    type V = ConstGroupView;

    open spec fn view(&self) -> ConstGroupView {
        match self {
            ConstGroup::Concat(es) => ConstGroupView::Concat(exprs_view(es@)),
            ConstGroup::Bytes { tag, exprs } => ConstGroupView::Bytes { tag: *tag, exprs: exprs_view(exprs@) },
        }
    }
}

/// Whether every expression is a literal.
pub open spec fn all_literals(exprs: Seq<ExprView>) -> bool {
    forall|i: int| 0 <= i < exprs.len() ==> (#[trigger] exprs[i]).is_literal()
}

/// How the constant group `exprs` is concatenated: with `concat!` when every
/// piece is a literal, at the byte level otherwise.
pub open spec fn const_group_of(exprs: Seq<ExprView>, tag: usize) -> ConstGroupView {
    if all_literals(exprs) {
        ConstGroupView::Concat(exprs)
    } else {
        ConstGroupView::Bytes { tag, exprs }
    }
}

/// Chooses how a group of constant pieces is concatenated at compile time;
/// `tag` keeps the helper constants of different groups apart.
pub fn const_group_expr(exprs: Vec<Expr>, tag: usize) -> (g: ConstGroup)
    ensures
        g@ == const_group_of(exprs_view(exprs@), tag),
        g@.exprs() == exprs_view(exprs@),
        g is Concat <==> (forall|i: int| 0 <= i < exprs@.len() ==> (#[trigger] exprs@[i])@.is_literal()),
{
    proof {
        crate::laws::lemma_const_group_strategy(exprs_view(exprs@), tag);
        assert forall|i: int| 0 <= i < exprs@.len() implies (#[trigger] exprs@[i])@ == exprs_view(exprs@)[i] by {}
    }
    let mut i: usize = 0;
    let mut all = true;
    while i < exprs.len()
        invariant
            i <= exprs@.len(),
            all == (forall|j: int| 0 <= j < i ==> (#[trigger] exprs_view(exprs@)[j]).is_literal()),
        decreases exprs@.len() - i,
    {
        if !is_lit(&exprs[i]) {
            all = false;
        }
        assert(exprs_view(exprs@)[i as int] == exprs@[i as int]@);
        i = i + 1;
    }
    if all {
        ConstGroup::Concat(exprs)
    } else {
        ConstGroup::Bytes { tag, exprs }
    }
}

/// Whether the expression is a literal of any kind.
fn is_lit(e: &Expr) -> (b: bool)
    ensures
        b == e@.is_literal(),
{
    match e {
        Expr::Whole { shape, .. } => !matches!(shape, Shape::Other),
        Expr::ConstTail { shape, .. } => !matches!(shape, Shape::Other),
        Expr::Str(_) => true,
        _ => false,
    }
}

/// The values of `exprs`, one after the other.
pub open spec fn concat_exprs(exprs: Seq<ExprView>, env: Seq<Seq<char>>, sep: Seq<char>) -> Seq<char>
    decreases exprs.len(),
{
    if exprs.len() == 0 {
        Seq::empty()
    } else {
        concat_exprs(exprs.drop_last(), env, sep) + exprs.last().value(env, sep)
    }
}

impl GroupView {
    /// The string that the group evaluates to.
    pub open spec fn value(self, env: Seq<Seq<char>>, sep: Seq<char>) -> Seq<char> {
        match self {
            GroupView::Const(es) => concat_exprs(es, env, sep),
            GroupView::Dynamic(e) => e.value(env, sep),
        }
    }
}

/// The values of `groups`, one after the other.
pub open spec fn concat_groups(groups: Seq<GroupView>, env: Seq<Seq<char>>, sep: Seq<char>) -> Seq<char>
    decreases groups.len(),
{
    if groups.len() == 0 {
        Seq::empty()
    } else {
        concat_groups(groups.drop_last(), env, sep) + groups.last().value(env, sep)
    }
}

impl ConstGroupView {
    /// The pieces of the group.
    pub open spec fn exprs(self) -> Seq<ExprView> {
        match self {
            ConstGroupView::Concat(es) => es,
            ConstGroupView::Bytes { exprs, .. } => exprs,
        }
    }

    /// The string that the constant evaluates to: its pieces one after the other,
    /// whichever way it is concatenated.
    pub open spec fn value(self, env: Seq<Seq<char>>, sep: Seq<char>) -> Seq<char> {
        concat_exprs(self.exprs(), env, sep)
    }
}

/// Whether every input expression that the pieces refer to has its position in `lo..hi`.
pub open spec fn exprs_indices_between(exprs: Seq<ExprView>, lo: int, hi: int) -> bool {
    forall|i: int| 0 <= i < exprs.len() ==> (#[trigger] exprs[i]).indices_between(lo, hi)
}

/// Appends the values of `exprs` to `buf`.
pub fn push_exprs(buf: &mut String, exprs: &Vec<Expr>, values: &Vec<String>, sep: &String)
    requires
        exprs_indices_between(exprs_view(exprs@), 0, values@.len() as int),
    ensures
        final(buf)@ == old(buf)@ + concat_exprs(exprs_view(exprs@), strings_view(values@), sep@),
{
    let ghost env = strings_view(values@);
    let ghost ev = exprs_view(exprs@);
    let ghost start = buf@;
    let mut i: usize = 0;
    proof {
        assert(ev.take(0) =~= Seq::<ExprView>::empty());
        assert(start + concat_exprs(ev.take(0), env, sep@) =~= start);
    }
    while i < exprs.len()
        invariant
            i <= exprs@.len(),
            ev == exprs_view(exprs@),
            env == strings_view(values@),
            exprs_indices_between(ev, 0, values@.len() as int),
            buf@ == start + concat_exprs(ev.take(i as int), env, sep@),
        decreases exprs@.len() - i,
    {
        assert(ev[i as int] == exprs@[i as int]@);
        let v = exprs[i].evaluate(values, sep);
        buf.append(v.as_str());
        proof {
            assert(ev.take(i + 1).drop_last() =~= ev.take(i as int));
            assert(ev.take(i + 1).last() == ev[i as int]);
        }
        i = i + 1;
    }
    assert(ev.take(exprs@.len() as int) =~= ev);
}

impl ConstGroup {
    /// The pieces of the group.
    pub fn exprs(&self) -> (es: &Vec<Expr>)
        ensures
            exprs_view(es@) == self@.exprs(),
    {
        match self {
            ConstGroup::Concat(es) => es,
            ConstGroup::Bytes { exprs, .. } => exprs,
        }
    }
}

/// The input expressions that the dynamic groups evaluate at run time, in order.
pub open spec fn groups_runtime(groups: Seq<GroupView>) -> Seq<usize>
    decreases groups.len(),
{
    if groups.len() == 0 {
        Seq::empty()
    } else {
        groups_runtime(groups.drop_last()) + match groups.last() {
            GroupView::Dynamic(e) => index_seq(e.input_index()),
            GroupView::Const(_) => Seq::empty(),
        }
    }
}

} // verus!
