//! The description of a record that planning works on: its shape, its fields,
//! and the annotations attached to each field.

use crate::text::{copy_opt_text, opt_text, texts};
use vstd::prelude::*;

verus! {

/// One annotation attached to a field, such as `#[default(value = 1)]`.
#[derive(Debug, PartialEq, Eq)]
pub struct Annotation {
    /// The annotation's identifier (`default` above); `None` where its path is
    /// anything but one plain identifier.
    pub ident: Option<String>,
    /// The source text between the delimiters that follow the path
    /// (`value = 1` above); `None` where no delimited list follows the path.
    pub body: Option<String>,
}

/// What an [`Annotation`] is in specifications.
pub struct AnnotationView {
    pub ident: Option<Seq<char>>,
    pub body: Option<Seq<char>>,
}

impl View for Annotation {
    type V = AnnotationView;

    open spec fn view(&self) -> AnnotationView {
        AnnotationView { ident: opt_text(self.ident), body: opt_text(self.body) }
    }
}

impl Clone for Annotation {
    fn clone(&self) -> (r: Self)
        ensures
            r == *self,
    {
        Annotation { ident: copy_opt_text(&self.ident), body: copy_opt_text(&self.body) }
    }
}

/// The views of a sequence of annotations, in order.
pub open spec fn annotation_views(s: Seq<Annotation>) -> Seq<AnnotationView> {
    s.map_values(|a: Annotation| a@)
}

/// The declared type of a field, as far as planning looks at it.
#[derive(Clone, Debug, PartialEq, Eq)]
pub enum TypeDesc {
    /// A path type such as `std::marker::PhantomData<T>`: the identifiers of its
    /// segments in order, generic arguments left out.
    Path(Vec<String>),
    /// Any other type: a reference, a tuple, an array, a pointer and so on.
    Other,
}

/// What a [`TypeDesc`] is in specifications.
pub enum TypeDescView {
    Path(Seq<Seq<char>>),
    Other,
}

impl View for TypeDesc {
    type V = TypeDescView;

    open spec fn view(&self) -> TypeDescView {
        match self {
            TypeDesc::Path(segments) => TypeDescView::Path(texts(segments@)),
            TypeDesc::Other => TypeDescView::Other,
        }
    }
}

/// One declared field.
#[derive(Clone, Debug, PartialEq, Eq)]
pub struct Field {
    /// The field's name; `None` for a positional field.
    pub name: Option<String>,
    /// The field's declared type.
    pub ty: TypeDesc,
    /// The annotations attached to the field, in source order.
    pub attrs: Vec<Annotation>,
}

/// What a [`Field`] is in specifications.
pub struct FieldView {
    pub name: Option<Seq<char>>,
    pub ty: TypeDescView,
    pub attrs: Seq<AnnotationView>,
}

impl View for Field {
    type V = FieldView;

    open spec fn view(&self) -> FieldView {
        FieldView {
            name: opt_text(self.name),
            ty: self.ty@,
            attrs: annotation_views(self.attrs@),
        }
    }
}

/// The views of a sequence of fields, in order.
pub open spec fn field_views(s: Seq<Field>) -> Seq<FieldView> {
    s.map_values(|f: Field| f@)
}

/// The three shapes a field set can have.
#[derive(Clone, Copy, Debug, PartialEq, Eq, Structural)]
pub enum FieldSetShape {
    /// `{ a: A, b: B }`: every field has a name.
    Named,
    /// `(A, B)`: no field has a name.
    Positional,
    /// No fields at all.
    Unit,
}

/// What a [`FieldSet`] is in specifications.
pub struct FieldSetView {
    pub shape: FieldSetShape,
    pub fields: Seq<FieldView>,
}

impl FieldSetView {
    /// The fields agree with the shape: all of them named, none of them named,
    /// or no fields at all.
    pub open spec fn well_formed(self) -> bool {
        match self.shape {
            FieldSetShape::Named => forall|i: int|
                0 <= i < self.fields.len() ==> (#[trigger] self.fields[i]).name is Some,
            FieldSetShape::Positional => forall|i: int|
                0 <= i < self.fields.len() ==> (#[trigger] self.fields[i]).name is None,
            FieldSetShape::Unit => self.fields.len() == 0,
        }
    }
}

/// The ordered fields of one record declaration, together with their shape.
///
/// A value is made by [`FieldSet::named`], [`FieldSet::positional`] or
/// [`FieldSet::unit`] only, so its fields always agree with its shape.
#[derive(Debug, PartialEq, Eq)]
pub struct FieldSet {
    shape: FieldSetShape,
    fields: Vec<Field>,
}

impl View for FieldSet {
    type V = FieldSetView;

    open spec fn view(&self) -> FieldSetView {
        FieldSetView { shape: self.spec_shape(), fields: field_views(self.items()) }
    }
}

impl FieldSet {
    #[verifier::type_invariant]
    spec fn agrees(self) -> bool {
        self@.well_formed()
    }

    /// The shape, in specifications.
    pub closed spec fn spec_shape(&self) -> FieldSetShape {
        self.shape
    }

    /// The fields themselves, in declaration order, in specifications.
    pub closed spec fn items(&self) -> Seq<Field> {
        self.fields@
    }

    /// The named field set of the given fields; `None` if one of them has no
    /// name.
    pub fn named(fields: Vec<Field>) -> (r: Option<FieldSet>)
        ensures
            r is Some <==> forall|i: int|
                0 <= i < fields.len() ==> (#[trigger] fields[i]).name is Some,
            r matches Some(fs) ==> fs.items() == fields@ && fs@.shape
                == FieldSetShape::Named,
    {
        let mut i: usize = 0;
        while i < fields.len()
            invariant
                i <= fields.len(),
                forall|j: int| 0 <= j < i ==> (#[trigger] fields[j]).name is Some,
            decreases fields.len() - i,
        {
            if fields[i].name.is_none() {
                return None;
            }
            i += 1;
        }
        Some(FieldSet { shape: FieldSetShape::Named, fields })
    }

    /// The positional field set of the given fields; `None` if one of them has
    /// a name.
    pub fn positional(fields: Vec<Field>) -> (r: Option<FieldSet>)
        ensures
            r is Some <==> forall|i: int|
                0 <= i < fields.len() ==> (#[trigger] fields[i]).name is None,
            r matches Some(fs) ==> fs.items() == fields@ && fs@.shape
                == FieldSetShape::Positional,
    {
        let mut i: usize = 0;
        while i < fields.len()
            invariant
                i <= fields.len(),
                forall|j: int| 0 <= j < i ==> (#[trigger] fields[j]).name is None,
            decreases fields.len() - i,
        {
            if fields[i].name.is_some() {
                return None;
            }
            i += 1;
        }
        Some(FieldSet { shape: FieldSetShape::Positional, fields })
    }

    /// The field set without fields.
    pub fn unit() -> (r: FieldSet)
        ensures
            r.items() == Seq::<Field>::empty(),
            r@.shape == FieldSetShape::Unit,
    {
        FieldSet { shape: FieldSetShape::Unit, fields: Vec::new() }
    }

    /// The shape of the field set.
    pub fn shape(&self) -> (r: FieldSetShape)
        ensures
            r == self@.shape,
    {
        self.shape
    }

    /// The fields, in declaration order. They agree with the shape.
    pub fn fields(&self) -> (r: &[Field])
        ensures
            r@ == self.items(),
            self@.well_formed(),
    {
        proof {
            use_type_invariant(self);
        }
        self.fields.as_slice()
    }
}

} // verus!
