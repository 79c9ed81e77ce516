use field_init_plan::select::find_field_attr;
use field_init_plan::{get_field_attr, Annotation, Diagnostic};

fn attr(ident: &str, body: &str) -> Annotation {
    Annotation { ident: Some(ident.to_string()), body: Some(body.to_string()) }
}

fn bare(ident: &str) -> Annotation {
    Annotation { ident: Some(ident.to_string()), body: None }
}

fn pathed(body: &str) -> Annotation {
    Annotation { ident: None, body: Some(body.to_string()) }
}

fn nameless() -> Diagnostic {
    Diagnostic::UnsupportedAttribute { ident: None }
}

fn unsupported(ident: &str) -> Diagnostic {
    Diagnostic::UnsupportedAttribute { ident: Some(ident.to_string()) }
}

#[test]
fn selects_the_first_annotation_with_the_name() {
    let attrs = vec![attr("default", "value = 1"), attr("default", "value = 2")];
    let mut sink = Vec::new();
    let found = get_field_attr(&attrs, "default", &mut sink);
    assert_eq!(found, Some(attr("default", "value = 1")));
    assert!(sink.is_empty());
}

#[test]
fn reports_every_annotation_passed_over() {
    let attrs = vec![bare("doc"), attr("serde", "skip"), attr("default", "value = 1")];
    let mut sink = Vec::new();
    let found = get_field_attr(&attrs, "default", &mut sink);
    assert_eq!(found, Some(attr("default", "value = 1")));
    assert_eq!(sink, vec![unsupported("doc"), unsupported("serde")]);
}

#[test]
fn annotations_behind_the_match_are_not_scanned() {
    let attrs = vec![attr("default", "value = 1"), bare("doc"), attr("serde", "skip")];
    let mut sink = Vec::new();
    let found = find_field_attr(&attrs, "default", &mut sink);
    assert_eq!(found, Some(0));
    assert!(sink.is_empty());
}

#[test]
fn absence_is_no_failure() {
    let attrs = vec![bare("doc"), attr("serde", "skip")];
    let mut sink = Vec::new();
    assert_eq!(get_field_attr(&attrs, "default", &mut sink), None);
    assert_eq!(sink, vec![unsupported("doc"), unsupported("serde")]);
    let mut sink = Vec::new();
    assert_eq!(get_field_attr(&Vec::new(), "default", &mut sink), None);
    assert!(sink.is_empty());
}

#[test]
fn annotation_without_identifier_is_reported_too() {
    let attrs = vec![pathed("x"), bare("doc"), pathed("y"), attr("default", "fn_name = f")];
    let mut sink = Vec::new();
    let found = find_field_attr(&attrs, "default", &mut sink);
    assert_eq!(found, Some(3));
    assert_eq!(sink, vec![nameless(), unsupported("doc"), nameless()]);
}

#[test]
fn single_annotation_with_a_longer_path_gives_one_diagnostic() {
    // `#[serde::default]`: the path is no plain identifier, and there is no
    // body.
    let attrs = vec![Annotation { ident: None, body: None }];
    let mut sink = Vec::new();
    assert_eq!(get_field_attr(&attrs, "default", &mut sink), None);
    assert_eq!(sink, vec![nameless()]);
}

#[test]
fn there_are_as_many_diagnostics_as_annotations_before_the_match() {
    let attrs = vec![
        bare("doc"),
        pathed("a"),
        attr("serde", "skip"),
        Annotation { ident: None, body: None },
        attr("default", "value = 1"),
        pathed("late"),
        bare("doc"),
    ];
    for (needed, stop) in [("doc", 0), ("serde", 2), ("default", 4), ("absent", 7)] {
        let mut sink = Vec::new();
        let found = find_field_attr(&attrs, needed, &mut sink);
        assert_eq!(found, if stop < attrs.len() { Some(stop) } else { None });
        assert_eq!(sink.len(), stop);
        for (diagnostic, passed) in sink.iter().zip(&attrs) {
            assert_eq!(
                diagnostic,
                &Diagnostic::UnsupportedAttribute { ident: passed.ident.clone() }
            );
        }
    }
}

#[test]
fn is_named_asks_for_the_identifier() {
    assert!(attr("default", "value = 1").is_named("default"));
    assert!(bare("default").is_named("default"));
    assert!(!bare("doc").is_named("default"));
    assert!(!pathed("default").is_named("default"));
    assert!(!bare("default").is_named("Default"));
}

#[test]
fn name_must_be_equal_exactly() {
    let attrs = vec![attr("Default", "value = 1"), attr("default_", "value = 2")];
    let mut sink = Vec::new();
    assert_eq!(get_field_attr(&attrs, "default", &mut sink), None);
    assert_eq!(sink, vec![unsupported("Default"), unsupported("default_")]);
}

#[test]
fn sink_is_only_appended_to() {
    let attrs = vec![bare("doc"), attr("default", "value = 1")];
    let mut sink = vec![unsupported("earlier")];
    let _ = get_field_attr(&attrs, "default", &mut sink);
    let _ = get_field_attr(&attrs, "doc", &mut sink);
    let _ = get_field_attr(&attrs, "other", &mut sink);
    assert_eq!(
        sink,
        vec![unsupported("earlier"), unsupported("doc"), unsupported("doc"), unsupported("default")]
    );
}
