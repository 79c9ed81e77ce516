//! The answers of a predicate on the fields of a field set, and the first
//! field that it matches.

use crate::model::{Field, FieldSet};
use vstd::prelude::*;

verus! {

/// Whether `m` holds, field by field and in declaration order, a value that
/// `pred` can return on that field.
pub open spec fn answers<F: Fn(&Field) -> bool>(pred: F, items: Seq<Field>, m: Seq<bool>) -> bool {
    &&& m.len() == items.len()
    &&& forall|i: int| 0 <= i < items.len() ==> call_ensures(pred, (&items[i],), #[trigger] m[i])
}

/// Applies `pred` once to every field, in declaration order, and returns its
/// answers.
pub fn evaluate<F: Fn(&Field) -> bool>(fields: &FieldSet, pred: F) -> (m: Vec<bool>)
    requires
        forall|i: int|
            0 <= i < fields.items().len() ==> call_requires(pred, (&#[trigger] fields.items()[i],)),
    ensures
        answers(pred, fields.items(), m@),
{
    let items = fields.fields();
    let mut m: Vec<bool> = Vec::new();
    let mut i: usize = 0;
    while i < items.len()
        invariant
            i <= items.len(),
            m.len() == i,
            forall|j: int| 0 <= j < items.len() ==> call_requires(pred, (&#[trigger] items@[j],)),
            forall|j: int| 0 <= j < i ==> call_ensures(pred, (&items@[j],), #[trigger] m@[j]),
        decreases items.len() - i,
    {
        let answer = pred(&items[i]);
        m.push(answer);
        i += 1;
    }
    m
}

/// A predicate that can give one answer only on each field has one sequence
/// of answers only.
pub proof fn law_pure_predicate_has_one_answer<F: Fn(&Field) -> bool>(
    pred: F,
    items: Seq<Field>,
    m1: Seq<bool>,
    m2: Seq<bool>,
)
    requires
        forall|f: &Field, a: bool, b: bool|
            #[trigger] call_ensures(pred, (f,), a) && #[trigger] call_ensures(pred, (f,), b) ==> a
                == b,
        answers(pred, items, m1),
        answers(pred, items, m2),
    ensures
        m1 == m2,
{
    assert forall|i: int| 0 <= i < items.len() implies m1[i] == m2[i] by {
    }
}

/// The answers fitted to `count` fields: a field without an answer counts as
/// not matched, and answers behind the last field are left out.
pub open spec fn fitted(m: Seq<bool>, count: nat) -> Seq<bool> {
    Seq::new(count, |i: int| i < m.len() && m[i])
}

/// The least index from `from` on at which `m` is true, or the length of `m`
/// if there is none.
pub open spec fn first_true_from(m: Seq<bool>, from: int) -> int
    decreases m.len() - from,
{
    if from >= m.len() {
        m.len() as int
    } else if m[from] {
        from
    } else {
        first_true_from(m, from + 1)
    }
}

/// The index of the first true answer, if there is one.
pub open spec fn first_true(m: Seq<bool>) -> Option<int> {
    let first = first_true_from(m, 0);
    if first < m.len() {
        Some(first)
    } else {
        None
    }
}

/// An index in specifications.
pub open spec fn index_view(i: Option<usize>) -> Option<int> {
    match i {
        Some(i) => Some(i as int),
        None => None,
    }
}

/// The first true answer from `from` on lies within the answers, nothing
/// between `from` and it is true, and the answer at it is.
pub proof fn lemma_first_true_from(m: Seq<bool>, from: int)
    requires
        0 <= from <= m.len(),
    ensures
        from <= first_true_from(m, from) <= m.len(),
        forall|j: int| from <= j < first_true_from(m, from) ==> !#[trigger] m[j],
        first_true_from(m, from) < m.len() ==> m[first_true_from(m, from)],
    decreases m.len() - from,
{
    if from < m.len() && !m[from] {
        lemma_first_true_from(m, from + 1);
    }
}

/// The first true answer is true and nothing before it is; there is none
/// exactly where no answer is true.
pub proof fn lemma_first_true(m: Seq<bool>)
    ensures
        first_true(m) matches Some(first) ==> 0 <= first < m.len() && m[first] && forall|j: int|
            0 <= j < first ==> !#[trigger] m[j],
        first_true(m) is None ==> forall|j: int| 0 <= j < m.len() ==> !#[trigger] m[j],
{
    lemma_first_true_from(m, 0);
}

/// The index of the first of `count` fields that `matches` marks as matched.
pub fn first_match(matches: &[bool], count: usize) -> (r: Option<usize>)
    ensures
        index_view(r) == first_true(fitted(matches@, count as nat)),
        r matches Some(p) ==> p < count,
{
    let ghost m = fitted(matches@, count as nat);
    let mut i: usize = 0;
    while i < count
        invariant
            i <= count,
            m == fitted(matches@, count as nat),
            first_true_from(m, 0) == first_true_from(m, i as int),
        decreases count - i,
    {
        if i < matches.len() && matches[i] {
            return Some(i);
        }
        i += 1;
    }
    None
}

} // verus!
