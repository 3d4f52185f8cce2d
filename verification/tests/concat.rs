use fastcat::expand::{fconcat, Expansion};
use fastcat::model::{Args, Shape};
use fastcat::parse::RawExpr;

/// A string literal written in the input.
fn lit(s: &str) -> RawExpr {
    RawExpr::Plain(Shape::Str(s.to_string()))
}

/// An expression known only at run time, such as a variable.
fn dynamic() -> RawExpr {
    RawExpr::Plain(Shape::Other)
}

/// `const { NAME }`: a named constant.
fn named_const() -> RawExpr {
    RawExpr::ConstBlock { tail: Some(Shape::Other) }
}

/// `const { "text" }`: a block around a string literal.
fn const_lit(s: &str) -> RawExpr {
    RawExpr::ConstBlock { tail: Some(Shape::Str(s.to_string())) }
}

/// Expands the input and runs the expanded code; `values` holds the values of
/// the input's expressions in the order they are written, the separator first.
fn run(sep: Option<RawExpr>, items: Vec<RawExpr>, values: &[&str]) -> (Expansion, String) {
    let args = Args::parse(sep, items);
    let expansion = fconcat(args);
    let values: Vec<String> = values.iter().map(|v| v.to_string()).collect();
    let out = expansion.evaluate(&values);
    (expansion, out)
}

#[test]
fn all_dynamic() {
    let (_, result) = run(None, vec![dynamic(), dynamic()], &["hello ", "world"]);
    assert_eq!(result, "hello world");
}

#[test]
fn all_const() {
    let (expansion, result) = run(None, vec![named_const(), named_const(), lit("baz")], &["foo", "bar", "baz"]);
    assert!(matches!(expansion, Expansion::Constant(_)));
    assert_eq!(result, "foobarbaz");
}

#[test]
fn mixed() {
    let (_, result) = run(
        None,
        vec![named_const(), lit("-"), dynamic(), lit("-suf")],
        &["pre", "-", "dyn", "-suf"],
    );
    assert_eq!(result, "pre-dyn-suf");
}

#[test]
fn sep_all_const() {
    let (expansion, result) = run(Some(lit("-")), vec![lit("a"), lit("b"), lit("c")], &["-", "a", "b", "c"]);
    assert!(matches!(expansion, Expansion::Constant(_)));
    assert_eq!(result, "a-b-c");
}

#[test]
fn sep_all_const_named() {
    let (expansion, result) = run(
        Some(lit("-")),
        vec![named_const(), named_const(), lit("baz")],
        &["-", "foo", "bar", "baz"],
    );
    assert!(matches!(expansion, Expansion::Constant(_)));
    assert_eq!(result, "foo-bar-baz");
}

#[test]
fn sep_lit_dyn_lit() {
    let (_, result) = run(Some(lit("-")), vec![lit("a"), dynamic(), lit("c")], &["-", "a", "dyn", "c"]);
    assert_eq!(result, "a-dyn-c");
}

#[test]
fn sep_dyn_dyn_gap() {
    let (_, result) = run(
        Some(lit("-")),
        vec![lit("a"), dynamic(), dynamic(), lit("c")],
        &["-", "a", "X", "Y", "c"],
    );
    assert_eq!(result, "a-X-Y-c");
}

#[test]
fn sep_all_dynamic() {
    let (_, result) = run(Some(lit("-")), vec![dynamic(), dynamic(), dynamic()], &["-", "a", "b", "c"]);
    assert_eq!(result, "a-b-c");
}

#[test]
fn sep_dynamic_separator() {
    let (_, result) = run(Some(dynamic()), vec![dynamic(), dynamic()], &[":", "X", "Y"]);
    assert_eq!(result, "X:Y");
}

#[test]
fn sep_dynamic_separator_reused_across_gaps() {
    let (_, result) = run(Some(dynamic()), vec![dynamic(), dynamic(), dynamic()], &["|", "a", "b", "c"]);
    assert_eq!(result, "a|b|c");
}

#[test]
fn sep_single_item() {
    let (_, result) = run(Some(lit("-")), vec![lit("solo")], &["-", "solo"]);
    assert_eq!(result, "solo");
}

#[test]
fn sep_two_literals_only() {
    let (expansion, result) = run(Some(lit("-")), vec![lit("only")], &["-", "only"]);
    assert!(matches!(expansion, Expansion::Constant(_)));
    assert_eq!(result, "only");
}

#[test]
fn sep_three_literals_chain_fuse() {
    let (expansion, result) = run(
        Some(lit("-")),
        vec![lit("a"), lit("b"), lit("c"), lit("d")],
        &["-", "a", "b", "c", "d"],
    );
    assert!(matches!(expansion, Expansion::Constant(_)));
    assert_eq!(result, "a-b-c-d");
}

#[test]
fn sep_named_const_then_two_literals() {
    let (expansion, result) = run(
        Some(lit("-")),
        vec![named_const(), lit("literal "), lit("world")],
        &["-", "hello ", "literal ", "world"],
    );
    assert!(matches!(expansion, Expansion::Constant(_)));
    assert_eq!(result, "hello -literal -world");
}

#[test]
fn sep_two_named_consts_then_two_literals() {
    let (expansion, result) = run(
        Some(lit("-")),
        vec![named_const(), named_const(), lit("literal "), lit("world")],
        &["-", "hello ", "const ", "literal ", "world"],
    );
    assert!(matches!(expansion, Expansion::Constant(_)));
    assert_eq!(result, "hello -const -literal -world");
}

#[test]
fn sep_const_block_wrapping_a_literal() {
    let (expansion, result) = run(
        Some(lit("-")),
        vec![lit("literal "), const_lit("world")],
        &["-", "literal ", "world"],
    );
    assert!(matches!(expansion, Expansion::Constant(_)));
    assert_eq!(result, "literal -world");
}

#[test]
fn sep_exact_all_const_repro() {
    let (expansion, result) = run(
        Some(lit("-")),
        vec![named_const(), named_const(), lit("literal "), const_lit("world")],
        &["-", "hello ", "const ", "literal ", "world"],
    );
    assert!(matches!(expansion, Expansion::Constant(_)));
    assert_eq!(result, "hello -const -literal -world");
}

#[test]
fn sep_four_literals_middle_named_const() {
    let (expansion, result) = run(
        Some(lit("-")),
        vec![lit("a"), lit("b"), named_const(), lit("c"), lit("d")],
        &["-", "a", "b", "MID", "c", "d"],
    );
    assert!(matches!(expansion, Expansion::Constant(_)));
    assert_eq!(result, "a-b-MID-c-d");
}

#[test]
fn sep_long_literal_run_after_dynamic() {
    let (_, result) = run(
        Some(lit("-")),
        vec![dynamic(), lit("a"), lit("b"), lit("c"), lit("d")],
        &["-", "DYN", "a", "b", "c", "d"],
    );
    assert_eq!(result, "DYN-a-b-c-d");
}
