//! Transformations that allow a filter to make use of indexes.
//!
//! A filter whose predicates set columns equal to literals can be answered
//! from an index whose keys are all among those columns. What is decided
//! here is which index that is and which literal goes with each of its keys.

use vstd::prelude::*;
use crate::lexical::bytes_eq;

verus! {

/// A scalar expression, as far as the transformation tells expressions
/// apart.
#[derive(Debug)]
pub enum ScalarExpr {
    /// A column of the input.
    Column(usize),
    /// A literal, by its encoding.
    Literal(Vec<u8>),
    /// Any other expression. It is never found equal to a column or a
    /// literal.
    Other,
}

/// A scalar expression with its literal as a sequence of bytes.
pub enum ExprView {
    Column(usize),
    Literal(Seq<u8>),
    Other,
}

impl View for ScalarExpr {
    type V = ExprView;

    open spec fn view(&self) -> ExprView {
        match *self {
            ScalarExpr::Column(c) => ExprView::Column(c),
            ScalarExpr::Literal(bytes) => ExprView::Literal(bytes@),
            ScalarExpr::Other => ExprView::Other,
        }
    }
}

impl Clone for ScalarExpr {
    fn clone(&self) -> (copy: ScalarExpr)
        ensures
            copy@ == self@,
    {
        match self {
            ScalarExpr::Column(c) => ScalarExpr::Column(*c),
            ScalarExpr::Literal(bytes) => ScalarExpr::Literal(bytes.clone()),
            ScalarExpr::Other => ScalarExpr::Other,
        }
    }
}

/// A predicate of a filter.
#[derive(Debug)]
pub enum Predicate {
    /// An equality of two expressions.
    Eq(ScalarExpr, ScalarExpr),
    /// Any other predicate.
    Other,
}

/// The expressions of a key set, by their views.
pub open spec fn exprs_view(exprs: Seq<ScalarExpr>) -> Seq<ExprView> {
    exprs.map_values(|e: ScalarExpr| e@)
}

/// What the predicates up to `upto` say of which expression equals which
/// literal: an equality of a literal and a column, in either order, is kept
/// under its second expression, with its first expression as what it
/// equals; a later equality replaces an earlier one.
pub open spec fn gathered(predicates: Seq<Predicate>, upto: int) -> Map<ExprView, ExprView>
    decreases upto,
{
    if upto <= 0 {
        Map::empty()
    } else {
        let known = gathered(predicates, upto - 1);
        match predicates[upto - 1] {
            Predicate::Eq(ScalarExpr::Literal(l), ScalarExpr::Column(c)) => known.insert(
                ExprView::Column(c),
                ExprView::Literal(l@),
            ),
            Predicate::Eq(ScalarExpr::Column(c), ScalarExpr::Literal(l)) => known.insert(
                ExprView::Literal(l@),
                ExprView::Column(c),
            ),
            _ => known,
        }
    }
}

/// Whether every key of the set is among the known expressions.
pub open spec fn covered(keys: Seq<ExprView>, known: Map<ExprView, ExprView>) -> bool {
    forall|i: int| 0 <= i < keys.len() ==> known.contains_key(#[trigger] keys[i])
}

/// Whether the key set at `at` is the best one: it is covered, no covered
/// set is larger, and of the covered sets of its size it is the last.
pub open spec fn is_best(key_sets: Seq<Vec<ScalarExpr>>, known: Map<ExprView, ExprView>, at: int) -> bool {
    &&& 0 <= at < key_sets.len()
    &&& covered(exprs_view(key_sets[at]@), known)
    &&& forall|j: int|
        0 <= j < key_sets.len() && covered(exprs_view((#[trigger] key_sets[j])@), known)
            ==> key_sets[j]@.len() < key_sets[at]@.len() || (key_sets[j]@.len() == key_sets[at]@.len()
            && j <= at)
}

/// Whether any key set is covered.
pub open spec fn any_covered(key_sets: Seq<Vec<ScalarExpr>>, known: Map<ExprView, ExprView>) -> bool {
    exists|j: int| 0 <= j < key_sets.len() && covered(exprs_view((#[trigger] key_sets[j])@), known)
}

/// An index to answer a filter from, and what each of its keys is equal to.
pub struct IndexChoice {
    /// The position of the chosen key set among the key sets of the indexes.
    pub index: usize,
    /// For each key of the set, in order, the expression that the filter
    /// sets it equal to.
    pub equals: Vec<ScalarExpr>,
}

/// Whether two expressions are the same.
pub fn same_expr(a: &ScalarExpr, b: &ScalarExpr) -> (same: bool)
    ensures
        same == (a@ == b@),
{
    match (a, b) {
        (ScalarExpr::Column(x), ScalarExpr::Column(y)) => *x == *y,
        (ScalarExpr::Literal(x), ScalarExpr::Literal(y)) => bytes_eq(x.as_slice(), y.as_slice()),
        (ScalarExpr::Other, ScalarExpr::Other) => true,
        _ => false,
    }
}

/// The map that a list of pairs stands for; a later pair replaces an
/// earlier one of the same expression.
pub open spec fn pairs_map(pairs: Seq<(ScalarExpr, ScalarExpr)>) -> Map<ExprView, ExprView>
    decreases pairs.len(),
{
    if pairs.len() == 0 {
        Map::empty()
    } else {
        pairs_map(pairs.drop_last()).insert(pairs.last().0@, pairs.last().1@)
    }
}

/// What the list says of an expression: the last pair that holds it.
fn lookup(pairs: &Vec<(ScalarExpr, ScalarExpr)>, key: &ScalarExpr) -> (r: Option<usize>)
    ensures
        match r {
            Some(at) => at < pairs.len() && pairs_map(pairs@).contains_key(key@) && pairs_map(pairs@)[key@]
                == pairs[at as int].1@,
            None => !pairs_map(pairs@).contains_key(key@),
        },
{
    let mut i: usize = pairs.len();
    let ghost all = pairs@;
    assert(all.take(pairs.len() as int) =~= all);
    while i > 0
        invariant
            i <= pairs.len(),
            all == pairs@,
            pairs_map(all).contains_key(key@) == pairs_map(all.take(i as int)).contains_key(key@),
            pairs_map(all).contains_key(key@) ==> pairs_map(all)[key@] == pairs_map(all.take(i as int))[key@],
        decreases i,
    {
        proof {
            assert(all.take(i as int).drop_last() =~= all.take(i - 1));
            assert(all.take(i as int).last() == all[i - 1]);
        }
        if same_expr(&pairs[i - 1].0, key) {
            return Some(i - 1);
        }
        i -= 1;
    }
    None
}

/// Replaces filters of the form `Column(i) == Literal`, where `i` is a
/// column for which an index exists, with a join of the arranged input and
/// the literals.
#[derive(Debug)]
pub struct FilterEqualLiteral;

impl FilterEqualLiteral {
    /// Gathers from the predicates which expression equals which literal.
    pub fn equal_literals(&self, predicates: &Vec<Predicate>) -> (known: Vec<(ScalarExpr, ScalarExpr)>)
        ensures
            pairs_map(known@) == gathered(predicates@, predicates@.len() as int),
    {
        let mut known: Vec<(ScalarExpr, ScalarExpr)> = Vec::new();
        let mut i: usize = 0;
        while i < predicates.len()
            invariant
                i <= predicates.len(),
                pairs_map(known@) == gathered(predicates@, i as int),
            decreases predicates.len() - i,
        {
            let ghost before = known@;
            if let Predicate::Eq(expr1, expr2) = &predicates[i] {
                match (expr1, expr2) {
                    (ScalarExpr::Literal(_), ScalarExpr::Column(_)) => {
                        known.push((expr2.clone(), expr1.clone()));
                        assert(known@.drop_last() =~= before);
                    },
                    (ScalarExpr::Column(_), ScalarExpr::Literal(_)) => {
                        known.push((expr2.clone(), expr1.clone()));
                        assert(known@.drop_last() =~= before);
                    },
                    _ => {},
                }
            }
            i += 1;
        }
        known
    }

    /// Finds the key set of the largest size whose keys are all among the
    /// known expressions; of several of that size, the last.
    pub fn best_index(&self, key_sets: &Vec<Vec<ScalarExpr>>, known: &Vec<(ScalarExpr, ScalarExpr)>) -> (r:
        Option<usize>)
        ensures
            match r {
                Some(at) => is_best(key_sets@, pairs_map(known@), at as int),
                None => !any_covered(key_sets@, pairs_map(known@)),
            },
    {
        let ghost map = pairs_map(known@);
        let mut best: Option<usize> = None;
        let mut i: usize = 0;
        while i < key_sets.len()
            invariant
                i <= key_sets.len(),
                map == pairs_map(known@),
                match best {
                    Some(at) => {
                        &&& at < i
                        &&& covered(exprs_view(key_sets[at as int]@), map)
                        &&& forall|j: int|
                            0 <= j < i && covered(exprs_view((#[trigger] key_sets[j])@), map)
                                ==> key_sets[j]@.len() < key_sets[at as int]@.len() || (key_sets[j]@.len()
                                == key_sets[at as int]@.len() && j <= at)
                    },
                    None => forall|j: int|
                        0 <= j < i ==> !covered(exprs_view((#[trigger] key_sets[j])@), map),
                },
            decreases key_sets.len() - i,
        {
            let keys = &key_sets[i];
            let mut all: bool = true;
            let mut k: usize = 0;
            while k < keys.len()
                invariant
                    k <= keys.len(),
                    map == pairs_map(known@),
                    all == (forall|m: int| 0 <= m < k ==> map.contains_key(#[trigger] exprs_view(keys@)[m])),
                decreases keys.len() - k,
            {
                let found = lookup(known, &keys[k]);
                proof {
                    assert(exprs_view(keys@)[k as int] == keys[k as int]@);
                }
                if found.is_none() {
                    all = false;
                }
                k += 1;
            }
            if all {
                let better = match best {
                    Some(at) => key_sets[at].len() <= keys.len(),
                    None => true,
                };
                if better {
                    best = Some(i);
                }
            }
            i += 1;
        }
        best
    }

    /// Chooses the index to answer a filter from, and for each key of the
    /// index the expression that the filter sets it equal to.
    ///
    /// Nothing is chosen where the predicates set no column equal to a
    /// literal, or where no key set has all its keys among those columns.
    pub fn action(&self, predicates: &Vec<Predicate>, key_sets: &Vec<Vec<ScalarExpr>>) -> (r: Option<
        IndexChoice,
    >)
        ensures
            match r {
                Some(choice) => {
                    let known = gathered(predicates@, predicates@.len() as int);
                    &&& is_best(key_sets@, known, choice.index as int)
                    &&& choice.equals@.len() == key_sets[choice.index as int]@.len()
                    &&& forall|i: int|
                        0 <= i < choice.equals@.len() ==> (#[trigger] choice.equals[i])@ == known[key_sets[choice.index as int][i]@]
                    &&& known != Map::<ExprView, ExprView>::empty()
                },
                None => !any_covered(key_sets@, gathered(predicates@, predicates@.len() as int))
                    || gathered(predicates@, predicates@.len() as int) == Map::<
                    ExprView,
                    ExprView,
                >::empty(),
            },
    {
        let known = self.equal_literals(predicates);
        let ghost map = pairs_map(known@);
        if known.len() == 0 {
            return None;
        }
        proof {
            assert(map.contains_key(known@.last().0@));
        }
        let at = match self.best_index(key_sets, &known) {
            Some(at) => at,
            None => {
                return None;
            },
        };
        let keys = &key_sets[at];
        let mut equals: Vec<ScalarExpr> = Vec::new();
        let mut i: usize = 0;
        while i < keys.len()
            invariant
                i <= keys.len(),
                map == pairs_map(known@),
                covered(exprs_view(keys@), map),
                equals@.len() == i,
                forall|j: int| 0 <= j < i ==> (#[trigger] equals[j])@ == map[keys[j]@],
            decreases keys.len() - i,
        {
            proof {
                assert(map.contains_key(exprs_view(keys@)[i as int]));
            }
            match lookup(&known, &keys[i]) {
                Some(found) => {
                    equals.push(known[found].1.clone());
                },
                None => {
                    assert(false);
                },
            }
            i += 1;
        }
        Some(IndexChoice { index: at, equals })
    }
}

} // verus!
