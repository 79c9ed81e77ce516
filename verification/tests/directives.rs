use field_init_plan::directive::{
    directive_of, directives_in, directives_of, entries_in, resolve_field,
};
use field_init_plan::{Annotation, Diagnostic, Directive, Field, MetaEntry, PlanError, TypeDesc};

fn assign(name: &str, value: &str) -> MetaEntry {
    MetaEntry::NameValue { name: Some(name.to_string()), value: value.to_string() }
}

fn explicit(expr: &str) -> Directive {
    Directive::ExplicitValue(expr.to_string())
}

fn computed(func: &str) -> Directive {
    Directive::ComputedFromInstance(func.to_string())
}

fn field_with(attrs: Vec<Annotation>) -> Field {
    Field { name: Some("x".to_string()), ty: TypeDesc::Other, attrs }
}

fn attr(ident: &str, body: Option<&str>) -> Annotation {
    Annotation { ident: Some(ident.to_string()), body: body.map(|b| b.to_string()) }
}

#[test]
fn value_and_fn_name_are_the_two_directives() {
    assert_eq!(directive_of(&assign("value", "1 + 2")), Ok(explicit("1 + 2")));
    assert_eq!(directive_of(&assign("fn_name", "make")), Ok(computed("make")));
}

#[test]
fn every_other_entry_is_a_violation() {
    assert_eq!(directive_of(&assign("color", "\"red\"")), Err(PlanError::UnknownDirective));
    assert_eq!(directive_of(&assign("Value", "1")), Err(PlanError::UnknownDirective));
    assert_eq!(directive_of(&assign("", "1")), Err(PlanError::UnknownDirective));
    assert_eq!(
        directive_of(&MetaEntry::NameValue { name: None, value: "1".to_string() }),
        Err(PlanError::MissingIdentifier)
    );
    assert_eq!(directive_of(&MetaEntry::Path), Err(PlanError::NotAssignment));
    assert_eq!(directive_of(&MetaEntry::List), Err(PlanError::NotAssignment));
}

#[test]
fn entries_give_their_directives_in_order() {
    assert_eq!(directives_of(&vec![]), Ok(vec![]));
    assert_eq!(
        directives_of(&vec![assign("fn_name", "f"), assign("value", "1"), assign("value", "2")]),
        Ok(vec![computed("f"), explicit("1"), explicit("2")])
    );
}

#[test]
fn the_first_violation_decides_the_error() {
    assert_eq!(
        directives_of(&vec![assign("value", "1"), MetaEntry::Path, assign("color", "2")]),
        Err(PlanError::NotAssignment)
    );
    assert_eq!(
        directives_of(&vec![
            assign("color", "2"),
            MetaEntry::NameValue { name: None, value: "1".to_string() },
        ]),
        Err(PlanError::UnknownDirective)
    );
    assert_eq!(
        directives_of(&vec![
            MetaEntry::NameValue { name: None, value: "1".to_string() },
            MetaEntry::List,
        ]),
        Err(PlanError::MissingIdentifier)
    );
}

#[test]
fn body_is_parsed_into_entries() {
    assert_eq!(
        entries_in("value = 1 + 2, fn_name = make, align(8), a::b = 3, skip"),
        Some(vec![
            assign("value", "1 + 2"),
            assign("fn_name", "make"),
            MetaEntry::List,
            MetaEntry::NameValue { name: None, value: "3".to_string() },
            MetaEntry::Path,
        ])
    );
    assert_eq!(entries_in(""), Some(vec![]));
    assert_eq!(entries_in("value = 7,"), Some(vec![assign("value", "7")]));
}

#[test]
fn body_that_is_no_list_of_entries_is_rejected() {
    assert_eq!(entries_in("value = "), None);
    assert_eq!(entries_in("= 3"), None);
    assert_eq!(entries_in("value = 1 fn_name = f"), None);
    assert_eq!(entries_in("value = 1;"), None);
    assert_eq!(entries_in("value = (1"), None);
    assert_eq!(entries_in("3"), None);
    assert_eq!(entries_in(", value = 1"), None);
}

#[test]
fn body_gives_its_directives() {
    assert_eq!(directives_in("value = 42"), Ok(vec![explicit("42")]));
    assert_eq!(directives_in("fn_name = Self::make"), Ok(vec![computed("Self :: make")]));
    assert_eq!(directives_in("value = \"red\""), Ok(vec![explicit("\"red\"")]));
    assert_eq!(
        directives_in("value = vec![1, 2], fn_name = helpers::build"),
        Ok(vec![explicit("vec ! [1 , 2]"), computed("helpers :: build")])
    );
    assert_eq!(directives_in(""), Ok(vec![]));
}

#[test]
fn body_with_a_violation_gives_its_error() {
    assert_eq!(directives_in("color = \"red\""), Err(PlanError::UnknownDirective));
    assert_eq!(directives_in("value"), Err(PlanError::NotAssignment));
    assert_eq!(directives_in("value(1)"), Err(PlanError::NotAssignment));
    assert_eq!(directives_in("default::value = 1"), Err(PlanError::MissingIdentifier));
    assert_eq!(directives_in("value = "), Err(PlanError::MalformedBody));
    assert_eq!(directives_in("value = 1, color = 2, skip"), Err(PlanError::UnknownDirective));
}

#[test]
fn field_without_default_annotation_has_no_directive() {
    let mut sink = Vec::new();
    assert_eq!(resolve_field(&field_with(vec![]), &mut sink), Ok(vec![Directive::NoDirective]));
    assert!(sink.is_empty());
    let field = field_with(vec![attr("doc", None), attr("serde", Some("skip"))]);
    assert_eq!(resolve_field(&field, &mut sink), Ok(vec![Directive::NoDirective]));
    assert_eq!(
        sink,
        vec![
            Diagnostic::UnsupportedAttribute { ident: Some("doc".to_string()) },
            Diagnostic::UnsupportedAttribute { ident: Some("serde".to_string()) },
        ]
    );
}

#[test]
fn field_takes_the_directives_of_its_first_default_annotation() {
    let field = field_with(vec![
        attr("doc", None),
        attr("default", Some("value = 1")),
        attr("default", Some("color = 2")),
    ]);
    let mut sink = Vec::new();
    assert_eq!(resolve_field(&field, &mut sink), Ok(vec![explicit("1")]));
    assert_eq!(sink, vec![Diagnostic::UnsupportedAttribute { ident: Some("doc".to_string()) }]);
}

#[test]
fn default_annotation_without_body_is_malformed() {
    let mut sink = Vec::new();
    let field = field_with(vec![attr("default", None)]);
    assert_eq!(resolve_field(&field, &mut sink), Err(PlanError::MalformedBody));
    let field = field_with(vec![attr("default", Some("value 1"))]);
    assert_eq!(resolve_field(&field, &mut sink), Err(PlanError::MalformedBody));
    assert!(sink.is_empty());
}
