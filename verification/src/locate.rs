//! The needed-field locator: counts the fields that a predicate matches and
//! finds the last of them.

use crate::matching::{answers, evaluate, fitted};
use crate::model::{Field, FieldSet, FieldView};
use vstd::prelude::*;

verus! {

/// How many of the answers are true.
pub open spec fn count_true(m: Seq<bool>) -> nat
    decreases m.len(),
{
    if m.len() == 0 {
        0
    } else if m.last() {
        count_true(m.drop_last()) + 1
    } else {
        count_true(m.drop_last())
    }
}

/// The index of the last true answer, if there is one.
pub open spec fn last_true(m: Seq<bool>) -> Option<int>
    decreases m.len(),
{
    if m.len() == 0 {
        None
    } else if m.last() {
        Some(m.len() - 1)
    } else {
        last_true(m.drop_last())
    }
}

/// What the locator reports for the fields and the answers of the predicate
/// on them.
pub struct Located {
    /// The number of fields matched.
    pub count: nat,
    /// The declaration index of the last field matched; 0 where none is.
    pub last_index: int,
    /// The name of the last field matched, if one is matched and it has a
    /// name.
    pub name: Option<Seq<char>>,
}

/// The report for `fields`, where `m` holds the predicate's answer for each
/// field.
pub open spec fn located(fields: Seq<FieldView>, m: Seq<bool>) -> Located {
    Located {
        count: count_true(m),
        last_index: match last_true(m) {
            Some(last) => last,
            None => 0,
        },
        name: match last_true(m) {
            Some(last) => fields[last].name,
            None => None,
        },
    }
}

/// The last true answer lies within the answers, is true, and nothing behind
/// it is; there is none exactly where no answer is true.
pub proof fn law_last_match_is_last(m: Seq<bool>)
    ensures
        last_true(m) matches Some(last) ==> 0 <= last < m.len() && m[last] && forall|j: int|
            last < j < m.len() ==> !#[trigger] m[j],
        last_true(m) is None ==> count_true(m) == 0 && forall|j: int|
            0 <= j < m.len() ==> !#[trigger] m[j],
        count_true(m) <= m.len(),
    decreases m.len(),
{
    if m.len() > 0 {
        law_last_match_is_last(m.drop_last());
        if !m.last() {
            assert forall|j: int|
                0 <= j < m.len() && last_true(m) is None implies !#[trigger] m[j] by {
                if j < m.len() - 1 {
                    assert(m.drop_last()[j] == m[j]);
                }
            }
            assert forall|j: int|
                last_true(m) is Some && last_true(m)->0 < j < m.len() implies !#[trigger] m[j] by {
                if j < m.len() - 1 {
                    assert(m.drop_last()[j] == m[j]);
                }
            }
        }
    }
}

/// Reports, for the answers `matches` of a predicate on the fields (in
/// declaration order; a field without an answer counts as not matched, and
/// answers behind the last field are left out): how many fields are matched,
/// the index of the last one, and its name. Index and name are 0 and `None`
/// where no field is matched.
pub fn locate<'a>(fields: &'a FieldSet, matches: &[bool]) -> (r: (
    usize,
    usize,
    Option<&'a String>,
))
    ensures
        ({
            let report = located(fields@.fields, fitted(matches@, fields@.fields.len()));
            &&& r.0 == report.count
            &&& r.1 == report.last_index
            &&& match r.2 {
                Some(name) => Some(name@),
                None => None,
            } == report.name
        }),
{
    let items = fields.fields();
    let ghost m = fitted(matches@, items@.len());
    let mut count: usize = 0;
    let mut last_index: usize = 0;
    let mut name: Option<&'a String> = None;
    let mut i: usize = 0;
    while i < items.len()
        invariant
            i <= items.len(),
            items@ == fields.items(),
            m == fitted(matches@, items@.len()),
            count <= i,
            count == located(fields@.fields, m.take(i as int)).count,
            last_index == located(fields@.fields, m.take(i as int)).last_index,
            match name {
                Some(n) => Some(n@),
                None => None,
            } == located(fields@.fields, m.take(i as int)).name,
        decreases items.len() - i,
    {
        assert(m.take(i + 1).drop_last() =~= m.take(i as int));
        if i < matches.len() && matches[i] {
            count += 1;
            last_index = i;
            name = match &items[i].name {
                Some(n) => Some(n),
                None => None,
            };
        }
        i += 1;
    }
    assert(m.take(i as int) =~= m);
    (count, last_index, name)
}

/// Applies `is_need` to every field in declaration order and reports how many
/// fields it matches, the index of the last one, and its name; index and name
/// are 0 and `None` where it matches none.
pub fn find_needed_field_index<'a, F: Fn(&Field) -> bool>(fields: &'a FieldSet, is_need: F) -> (r: (
    usize,
    usize,
    Option<&'a String>,
))
    requires
        forall|i: int|
            0 <= i < fields.items().len() ==> call_requires(
                is_need,
                (&#[trigger] fields.items()[i],),
            ),
    ensures
        exists|m: Seq<bool>|
            {
                let report = located(fields@.fields, m);
                &&& #[trigger] answers(is_need, fields.items(), m)
                &&& r.0 == report.count
                &&& r.1 == report.last_index
                &&& match r.2 {
                    Some(name) => Some(name@),
                    None => None,
                } == report.name
            },
{
    let matches = evaluate(fields, is_need);
    assert(fitted(matches@, fields@.fields.len()) =~= matches@);
    locate(fields, matches.as_slice())
}

} // verus!
