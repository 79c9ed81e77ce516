use field_init_plan::{Annotation, Field, FieldSet, FieldSetShape, TypeDesc};

fn field(name: Option<&str>) -> Field {
    Field { name: name.map(|n| n.to_string()), ty: TypeDesc::Other, attrs: vec![] }
}

#[test]
fn named_set_takes_named_fields_only() {
    let set = FieldSet::named(vec![field(Some("a")), field(Some("b"))]).unwrap();
    assert_eq!(set.shape(), FieldSetShape::Named);
    assert_eq!(set.fields().len(), 2);
    assert_eq!(set.fields()[1].name.as_deref(), Some("b"));
    assert!(FieldSet::named(vec![field(Some("a")), field(None)]).is_none());
}

#[test]
fn named_set_may_be_empty() {
    let set = FieldSet::named(vec![]).unwrap();
    assert_eq!(set.shape(), FieldSetShape::Named);
    assert!(set.fields().is_empty());
}

#[test]
fn positional_set_takes_unnamed_fields_only() {
    let set = FieldSet::positional(vec![field(None), field(None), field(None)]).unwrap();
    assert_eq!(set.shape(), FieldSetShape::Positional);
    assert_eq!(set.fields().len(), 3);
    assert!(FieldSet::positional(vec![field(None), field(Some("a"))]).is_none());
}

#[test]
fn unit_set_has_no_fields() {
    let set = FieldSet::unit();
    assert_eq!(set.shape(), FieldSetShape::Unit);
    assert!(set.fields().is_empty());
}

#[test]
fn copy_of_an_annotation_is_equal() {
    let a = Annotation { ident: Some("default".to_string()), body: Some("value = 1".to_string()) };
    assert_eq!(a.clone(), a);
    let b = Annotation { ident: None, body: None };
    assert_eq!(b.clone(), b);
}
