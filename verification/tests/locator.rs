use field_init_plan::matching::{evaluate, first_match};
use field_init_plan::{find_needed_field_index, locate, Field, FieldSet, TypeDesc};

fn named(names: &[&str]) -> FieldSet {
    FieldSet::named(
        names
            .iter()
            .map(|n| Field { name: Some(n.to_string()), ty: TypeDesc::Other, attrs: vec![] })
            .collect(),
    )
    .unwrap()
}

fn positional(count: usize) -> FieldSet {
    FieldSet::positional(
        (0..count).map(|_| Field { name: None, ty: TypeDesc::Other, attrs: vec![] }).collect(),
    )
    .unwrap()
}

fn is(name: &str) -> impl Fn(&Field) -> bool + '_ {
    move |f: &Field| f.name.as_deref() == Some(name)
}

#[test]
fn locates_the_last_of_two_matches() {
    let fields = named(&["a", "b", "c"]);
    let (count, last_index, name) =
        find_needed_field_index(&fields, |f: &Field| is("a")(f) || is("c")(f));
    assert_eq!(count, 2);
    assert_eq!(last_index, 2);
    assert_eq!(name, Some(&"c".to_string()));
}

#[test]
fn locates_a_single_match() {
    let fields = named(&["a", "b", "c"]);
    assert_eq!(find_needed_field_index(&fields, is("b")), (1, 1, Some(&"b".to_string())));
    assert_eq!(find_needed_field_index(&fields, is("a")), (1, 0, Some(&"a".to_string())));
}

#[test]
fn no_match_gives_zero_and_no_name() {
    let fields = named(&["a", "b", "c"]);
    assert_eq!(find_needed_field_index(&fields, |_: &Field| false), (0, 0, None));
    assert_eq!(find_needed_field_index(&named(&[]), |_: &Field| true), (0, 0, None));
    assert_eq!(find_needed_field_index(&FieldSet::unit(), |_: &Field| true), (0, 0, None));
}

#[test]
fn positional_matches_have_no_name() {
    let fields = positional(4);
    assert_eq!(find_needed_field_index(&fields, |_: &Field| true), (4, 3, None));
    assert_eq!(locate(&fields, &vec![false, true, true, false]), (2, 2, None));
}

#[test]
fn every_match_is_counted() {
    let fields = named(&["a", "b", "c", "d", "e"]);
    assert_eq!(
        locate(&fields, &vec![true, true, false, true, false]),
        (3, 3, Some(&"d".to_string()))
    );
    assert_eq!(
        locate(&fields, &vec![true, true, true, true, true]),
        (5, 4, Some(&"e".to_string()))
    );
}

#[test]
fn missing_answers_count_as_no_match() {
    let fields = named(&["a", "b", "c"]);
    assert_eq!(locate(&fields, &vec![true]), (1, 0, Some(&"a".to_string())));
    assert_eq!(locate(&fields, &vec![]), (0, 0, None));
    assert_eq!(
        locate(&fields, &vec![false, true, false, true, true]),
        (1, 1, Some(&"b".to_string()))
    );
}

#[test]
fn predicate_is_asked_once_for_each_field_in_order() {
    let fields = named(&["a", "b", "c"]);
    assert_eq!(evaluate(&fields, is("b")), vec![false, true, false]);
    assert_eq!(evaluate(&fields, |_: &Field| true), vec![true, true, true]);
    assert_eq!(evaluate(&FieldSet::unit(), |_: &Field| true), Vec::<bool>::new());
}

#[test]
fn first_match_is_the_least_index_marked() {
    assert_eq!(first_match(&vec![false, true, true], 3), Some(1));
    assert_eq!(first_match(&vec![false, false, false], 3), None);
    assert_eq!(first_match(&vec![false, false, true], 2), None);
    assert_eq!(first_match(&vec![true], 3), Some(0));
    assert_eq!(first_match(&vec![], 3), None);
    assert_eq!(first_match(&vec![true], 0), None);
}
