//! Planning the construction of a record from one supplied value and
//! per-field directives.
//!
//! A record is described by a [`FieldSet`]. [`fill_default_fields`] turns it
//! into an [`InitPlan`]: the bindings to make and the initializers of the
//! construction expression. [`get_field_attr`] selects an annotation of a
//! field, [`type_is_phantom`] recognizes marker types and
//! [`find_needed_field_index`] counts and locates the fields a predicate
//! matches. The module [`laws`] states what holds of every plan.

pub mod directive;
pub mod emit;
pub mod laws;
pub mod locate;
pub mod marker;
pub mod matching;
pub mod model;
pub mod plan;
pub mod select;
pub mod text;

pub use crate::directive::{Directive, MetaEntry, PlanError};
pub use crate::locate::{find_needed_field_index, locate};
pub use crate::marker::type_is_phantom;
pub use crate::model::{Annotation, Field, FieldSet, FieldSetShape, TypeDesc};
pub use crate::plan::{
    fill_default_fields, plan_fields, Binding, BindingValue, InitPlan, Initializer,
};
pub use crate::select::{find_field_attr, get_field_attr, Diagnostic};
