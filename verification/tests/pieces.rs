use fastcat::bytes::concat_bytes;
use fastcat::expand::{fastcat_path, fconcat, CrateLookup, CratePath, Expansion, Piece};
use fastcat::fold::{as_lit_str, const_group_expr, group, intersperse_separator, ConstGroup, Group};
use fastcat::model::{Args, Expr, Item, Shape};
use fastcat::parse::RawExpr;

fn s(text: &str) -> String {
    text.to_string()
}

fn lit_at(index: usize, text: &str) -> Item {
    Item::Const(Expr::Whole { index, shape: Shape::Str(s(text)) })
}

fn dyn_at(index: usize) -> Item {
    Item::Dynamic(Expr::Whole { index, shape: Shape::Other })
}

fn named_at(index: usize) -> Item {
    Item::Const(Expr::ConstTail { index, shape: Shape::Other })
}

fn fresh(text: &str) -> Item {
    Item::Const(Expr::Str(s(text)))
}

fn run(sep: Option<RawExpr>, items: Vec<RawExpr>, values: &[&str]) -> (Expansion, String) {
    let expansion = fconcat(Args::parse(sep, items));
    let values: Vec<String> = values.iter().map(|v| v.to_string()).collect();
    let out = expansion.evaluate(&values);
    (expansion, out)
}

#[test]
fn readme_greeting() {
    let (_, result) = run(
        None,
        vec![RawExpr::Plain(Shape::Str(s("hello "))), RawExpr::Plain(Shape::Other)],
        &["hello ", "world"],
    );
    assert_eq!(result, "hello world");
}

#[test]
fn readme_separated_path() {
    let (_, result) = run(
        Some(RawExpr::Plain(Shape::Str(s("/")))),
        vec![RawExpr::Plain(Shape::Other), RawExpr::Plain(Shape::Other), RawExpr::Plain(Shape::Str(s("bin")))],
        &["/", "/usr/local", "bob", "bin"],
    );
    assert_eq!(result, "/usr/local/bob/bin");
}

#[test]
fn intersperse_fuses_literals_around_dynamic() {
    let out = intersperse_separator(vec![lit_at(1, "a"), dyn_at(2), lit_at(3, "c")], Some(s("-")), false);
    assert_eq!(out, vec![fresh("a-"), dyn_at(2), fresh("-c")]);
}

#[test]
fn intersperse_separator_between_dynamics_stands_alone() {
    let out = intersperse_separator(vec![dyn_at(1), dyn_at(2)], Some(s("-")), false);
    assert_eq!(out, vec![dyn_at(1), fresh("-"), dyn_at(2)]);
}

#[test]
fn intersperse_chain_of_literals() {
    let out = intersperse_separator(
        vec![lit_at(1, "a"), lit_at(2, "b"), lit_at(3, "c")],
        Some(s("-")),
        false,
    );
    assert_eq!(out, vec![fresh("a-"), fresh("b-"), lit_at(3, "c")]);
}

#[test]
fn intersperse_literal_after_dynamic_takes_both_separators() {
    let out = intersperse_separator(vec![dyn_at(1), lit_at(2, "b"), dyn_at(3)], Some(s("-")), false);
    assert_eq!(out, vec![dyn_at(1), fresh("-b-"), dyn_at(3)]);
}

#[test]
fn intersperse_bound_separator() {
    let out = intersperse_separator(vec![dyn_at(1), lit_at(2, "b")], None, true);
    assert_eq!(out, vec![dyn_at(1), Item::Dynamic(Expr::SepName), lit_at(2, "b")]);
}

#[test]
fn intersperse_without_separator_keeps_items() {
    let items = vec![dyn_at(0), lit_at(1, "b"), named_at(2)];
    assert_eq!(intersperse_separator(items.clone(), None, false), items);
}

#[test]
fn intersperse_single_item_unchanged() {
    assert_eq!(intersperse_separator(vec![lit_at(1, "solo")], Some(s("-")), false), vec![lit_at(1, "solo")]);
    assert_eq!(intersperse_separator(Vec::new(), Some(s("-")), true), Vec::new());
}

#[test]
fn group_runs_of_constants() {
    let groups = group(vec![named_at(0), lit_at(1, "x"), dyn_at(2), lit_at(3, "y"), dyn_at(4), dyn_at(5)]);
    assert_eq!(
        groups,
        vec![
            Group::Const(vec![
                Expr::ConstTail { index: 0, shape: Shape::Other },
                Expr::Whole { index: 1, shape: Shape::Str(s("x")) },
            ]),
            Group::Dynamic(Expr::Whole { index: 2, shape: Shape::Other }),
            Group::Const(vec![Expr::Whole { index: 3, shape: Shape::Str(s("y")) }]),
            Group::Dynamic(Expr::Whole { index: 4, shape: Shape::Other }),
            Group::Dynamic(Expr::Whole { index: 5, shape: Shape::Other }),
        ]
    );
    assert_eq!(group(Vec::new()), Vec::new());
}

#[test]
fn const_group_of_literals_uses_concat() {
    let exprs = vec![Expr::Whole { index: 0, shape: Shape::Str(s("a")) }, Expr::Whole { index: 1, shape: Shape::Lit }, Expr::Str(s("-"))];
    assert_eq!(const_group_expr(exprs.clone(), 7), ConstGroup::Concat(exprs));
}

#[test]
fn const_group_with_named_constant_uses_bytes() {
    let exprs = vec![Expr::Whole { index: 0, shape: Shape::Str(s("a")) }, Expr::ConstBody { index: 1 }];
    assert_eq!(const_group_expr(exprs.clone(), 3), ConstGroup::Bytes { tag: 3, exprs });
}

#[test]
fn as_lit_str_reads_constant_string_literals_only() {
    assert_eq!(as_lit_str(&lit_at(0, "a")), Some(s("a")));
    assert_eq!(as_lit_str(&fresh("b")), Some(s("b")));
    assert_eq!(as_lit_str(&Item::Const(Expr::ConstTail { index: 0, shape: Shape::Str(s("c")) })), Some(s("c")));
    assert_eq!(as_lit_str(&named_at(0)), None);
    assert_eq!(as_lit_str(&Item::Const(Expr::Whole { index: 0, shape: Shape::Lit })), None);
    assert_eq!(as_lit_str(&Item::Dynamic(Expr::Whole { index: 0, shape: Shape::Str(s("d")) })), None);
    assert_eq!(as_lit_str(&Item::Dynamic(Expr::SepName)), None);
}

#[test]
fn item_parse_classifies_expressions() {
    assert_eq!(Item::parse(RawExpr::Plain(Shape::Str(s("a"))), 4), lit_at(4, "a"));
    assert_eq!(Item::parse(RawExpr::Plain(Shape::Lit), 1), Item::Const(Expr::Whole { index: 1, shape: Shape::Lit }));
    assert_eq!(Item::parse(RawExpr::Plain(Shape::Other), 2), dyn_at(2));
    assert_eq!(
        Item::parse(RawExpr::ConstBlock { tail: Some(Shape::Str(s("w"))) }, 3),
        Item::Const(Expr::ConstTail { index: 3, shape: Shape::Str(s("w")) })
    );
    assert_eq!(Item::parse(RawExpr::ConstBlock { tail: None }, 5), Item::Const(Expr::ConstBody { index: 5 }));
}

#[test]
fn args_parse_numbers_expressions_in_order() {
    let args = Args::parse(
        Some(RawExpr::Plain(Shape::Other)),
        vec![RawExpr::Plain(Shape::Str(s("a"))), RawExpr::Plain(Shape::Other)],
    );
    assert_eq!(args, Args { sep: Some(dyn_at(0)), items: vec![lit_at(1, "a"), dyn_at(2)] });
    let args = Args::parse(None, vec![RawExpr::Plain(Shape::Other)]);
    assert_eq!(args, Args { sep: None, items: vec![dyn_at(0)] });
}

#[test]
fn empty_input_expands_to_empty_string() {
    let (expansion, result) = run(None, Vec::new(), &[]);
    assert_eq!(expansion, Expansion::Empty);
    assert_eq!(result, "");
}

#[test]
fn dynamic_separator_without_pieces_is_empty() {
    let (expansion, result) = run(Some(RawExpr::Plain(Shape::Other)), Vec::new(), &[":"]);
    assert_eq!(expansion, Expansion::Empty);
    assert_eq!(result, "");
}

#[test]
fn single_dynamic_piece_is_the_piece_itself() {
    let (expansion, result) = run(None, vec![RawExpr::Plain(Shape::Other)], &["only"]);
    assert_eq!(expansion, Expansion::Direct(Expr::Whole { index: 0, shape: Shape::Other }));
    assert_eq!(result, "only");
}

#[test]
fn dynamic_separator_with_one_piece_is_built() {
    let (expansion, result) = run(Some(RawExpr::Plain(Shape::Other)), vec![RawExpr::Plain(Shape::Other)], &[":", "x"]);
    assert_eq!(
        expansion,
        Expansion::Build {
            separator: Some(Expr::Whole { index: 0, shape: Shape::Other }),
            pieces: vec![Piece::Dynamic(Expr::Whole { index: 1, shape: Shape::Other })],
        }
    );
    assert_eq!(result, "x");
}

#[test]
fn built_pieces_carry_their_own_tags() {
    let (expansion, result) = run(
        None,
        vec![
            RawExpr::ConstBlock { tail: Some(Shape::Other) },
            RawExpr::Plain(Shape::Other),
            RawExpr::ConstBlock { tail: None },
            RawExpr::Plain(Shape::Str(s("!"))),
        ],
        &["A", "b", "C", "!"],
    );
    assert_eq!(
        expansion,
        Expansion::Build {
            separator: None,
            pieces: vec![
                Piece::Const(ConstGroup::Bytes { tag: 0, exprs: vec![Expr::ConstTail { index: 0, shape: Shape::Other }] }),
                Piece::Dynamic(Expr::Whole { index: 1, shape: Shape::Other }),
                Piece::Const(ConstGroup::Bytes {
                    tag: 2,
                    exprs: vec![Expr::ConstBody { index: 2 }, Expr::Whole { index: 3, shape: Shape::Str(s("!")) }],
                }),
            ],
        }
    );
    assert_eq!(result, "AbC!");
}

#[test]
fn other_literals_are_concatenated_as_constants() {
    let (expansion, result) = run(None, vec![RawExpr::Plain(Shape::Str(s("a"))), RawExpr::Plain(Shape::Lit)], &["a", "1"]);
    assert!(matches!(expansion, Expansion::Constant(ConstGroup::Concat(_))));
    assert_eq!(result, "a1");
}

#[test]
fn concat_bytes_joins_slices() {
    let a: &[u8] = b"ab";
    let b: &[u8] = b"";
    let c: &[u8] = b"c";
    let arr: [u8; 3] = concat_bytes::<3>(&[a, b, c]);
    assert_eq!(arr, *b"abc");
    let none: [u8; 0] = concat_bytes::<0>(&[]);
    assert_eq!(none, [0u8; 0]);
}

#[test]
fn concat_bytes_keeps_utf8() {
    let pieces = ["hé", "→", "x"];
    let slices: Vec<&[u8]> = pieces.iter().map(|p| p.as_bytes()).collect();
    let arr: [u8; 7] = concat_bytes::<7>(&slices);
    assert_eq!(std::str::from_utf8(&arr), Ok("hé→x"));
}

#[test]
fn fastcat_path_names_the_crate() {
    assert_eq!(fastcat_path(CrateLookup::Itself), CratePath::Local);
    assert_eq!(fastcat_path(CrateLookup::Name(s("renamed"))), CratePath::Extern(s("renamed")));
    assert_eq!(fastcat_path(CrateLookup::Missing), CratePath::Extern(s("fastcat")));
}
