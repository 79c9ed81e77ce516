//! The marker-type detector: recognizes fields whose type is one of the two
//! zero-sized markers of the standard library.

use crate::model::{Field, TypeDesc, TypeDescView};
use crate::text::same_text;
use vstd::prelude::*;

verus! {

/// Whether `name` is the identifier of a marker type.
pub open spec fn is_marker_name(name: Seq<char>) -> bool {
    name == "PhantomData"@ || name == "PhantomPinned"@
}

/// Whether `ty` is a path type whose last segment is a marker type's
/// identifier.
pub open spec fn is_marker_type(ty: TypeDescView) -> bool {
    match ty {
        TypeDescView::Path(segments) => segments.len() > 0 && is_marker_name(segments.last()),
        TypeDescView::Other => false,
    }
}

/// Whether the declared type of `field` is `PhantomData` or `PhantomPinned`,
/// however the path leads to it and whatever its generic arguments are.
pub fn type_is_phantom(field: &Field) -> (r: bool)
    ensures
        r == is_marker_type(field@.ty),
{
    match &field.ty {
        TypeDesc::Path(segments) => {
            if segments.len() == 0 {
                false
            } else {
                let last = &segments[segments.len() - 1];
                same_text(last.as_str(), "PhantomData") || same_text(last.as_str(), "PhantomPinned")
            }
        },
        TypeDesc::Other => false,
    }
}

} // verus!
