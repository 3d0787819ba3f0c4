use stash::transform::{same_expr, FilterEqualLiteral, Predicate, ScalarExpr};

fn column(c: usize) -> ScalarExpr {
    ScalarExpr::Column(c)
}

fn literal(text: &str) -> ScalarExpr {
    ScalarExpr::Literal(text.as_bytes().to_vec())
}

fn column_is(c: usize, text: &str) -> Predicate {
    Predicate::Eq(literal(text), column(c))
}

#[test]
fn the_largest_covered_index_is_chosen() {
    let predicates = vec![
        column_is(0, "a"),
        Predicate::Other,
        column_is(2, "c"),
        Predicate::Eq(column(5), column(6)),
        column_is(3, "d"),
    ];
    let key_sets = vec![
        vec![column(0)],
        vec![column(2), column(0)],
        vec![column(0), column(1)],
        vec![column(3), column(0)],
        vec![column(0), column(2), ScalarExpr::Other],
    ];
    let choice = FilterEqualLiteral.action(&predicates, &key_sets).unwrap();
    // Of the two covered sets of two keys the last one wins.
    assert_eq!(choice.index, 3);
    assert_eq!(choice.equals.len(), 2);
    assert!(same_expr(&choice.equals[0], &literal("d")));
    assert!(same_expr(&choice.equals[1], &literal("a")));
    assert_eq!(
        FilterEqualLiteral.best_index(&key_sets, &FilterEqualLiteral.equal_literals(&predicates)),
        Some(3)
    );
}

#[test]
fn a_later_equality_replaces_an_earlier_one() {
    let predicates = vec![column_is(0, "a"), column_is(0, "b")];
    let key_sets = vec![vec![column(0)]];
    let choice = FilterEqualLiteral.action(&predicates, &key_sets).unwrap();
    assert_eq!(choice.index, 0);
    assert!(same_expr(&choice.equals[0], &literal("b")));
}

#[test]
fn nothing_is_chosen_without_equalities_or_without_a_covered_index() {
    let key_sets = vec![vec![column(0)]];
    assert!(FilterEqualLiteral.action(&vec![], &key_sets).is_none());
    assert!(FilterEqualLiteral
        .action(&vec![Predicate::Other], &key_sets)
        .is_none());
    assert!(FilterEqualLiteral
        .action(&vec![column_is(1, "a")], &key_sets)
        .is_none());
    assert!(FilterEqualLiteral
        .action(&vec![column_is(1, "a")], &vec![])
        .is_none());
    // An index without keys is covered by whatever is known.
    let choice = FilterEqualLiteral
        .action(&vec![column_is(1, "a")], &vec![vec![column(0)], vec![]])
        .unwrap();
    assert_eq!(choice.index, 1);
    assert!(choice.equals.is_empty());
}

#[test]
fn an_equality_is_kept_under_its_second_expression() {
    // Written column first, the equality is kept under the literal.
    let predicates = vec![Predicate::Eq(column(0), literal("a"))];
    assert!(FilterEqualLiteral
        .action(&predicates, &vec![vec![column(0)]])
        .is_none());
    let choice = FilterEqualLiteral
        .action(&predicates, &vec![vec![literal("a")]])
        .unwrap();
    assert!(same_expr(&choice.equals[0], &column(0)));
}

#[test]
fn expressions_are_told_apart() {
    assert!(same_expr(&column(1), &column(1)));
    assert!(!same_expr(&column(1), &column(2)));
    assert!(same_expr(&literal("a"), &literal("a")));
    assert!(!same_expr(&literal("a"), &literal("b")));
    assert!(!same_expr(&literal("a"), &column(0)));
    assert!(same_expr(&ScalarExpr::Other, &ScalarExpr::Other));
    assert!(!same_expr(&ScalarExpr::Other, &column(0)));
}
