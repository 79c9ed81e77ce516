//! The attribute selector: picks, among the annotations of a field, the first
//! one with a given identifier, and reports the ones it passes over.

use crate::model::{annotation_views, Annotation, AnnotationView};
use crate::text::{copy_opt_text, opt_text, same_text};
use vstd::prelude::*;

verus! {

/// A remark made while scanning annotations. It never stops planning.
#[derive(Clone, Debug, PartialEq, Eq)]
pub enum Diagnostic {
    /// An annotation was passed over and is ignored: it is not the one that
    /// was looked for. `ident` is its identifier, `None` where its path is
    /// anything but one plain identifier.
    UnsupportedAttribute { ident: Option<String> },
}

/// What a [`Diagnostic`] is in specifications.
pub enum DiagnosticView {
    UnsupportedAttribute { ident: Option<Seq<char>> },
}

impl View for Diagnostic {
    type V = DiagnosticView;

    open spec fn view(&self) -> DiagnosticView {
        match self {
            Diagnostic::UnsupportedAttribute { ident } => DiagnosticView::UnsupportedAttribute {
                ident: opt_text(*ident),
            },
        }
    }
}

/// The views of a sequence of diagnostics, in order.
pub open spec fn diagnostic_views(s: Seq<Diagnostic>) -> Seq<DiagnosticView> {
    s.map_values(|d: Diagnostic| d@)
}

/// Whether `a` is an annotation with the identifier `name`.
pub open spec fn is_named(a: AnnotationView, name: Seq<char>) -> bool {
    a.ident == Some(name)
}

/// The least index from `from` on at which an annotation named `name` stands,
/// or the number of annotations if there is none.
pub open spec fn first_named_from(attrs: Seq<AnnotationView>, name: Seq<char>, from: int) -> int
    decreases attrs.len() - from,
{
    if from >= attrs.len() {
        attrs.len() as int
    } else if is_named(attrs[from], name) {
        from
    } else {
        first_named_from(attrs, name, from + 1)
    }
}

/// Where a scan for `name` stops: at the first annotation with that
/// identifier, or behind the last annotation.
pub open spec fn scan_stop(attrs: Seq<AnnotationView>, name: Seq<char>) -> int {
    first_named_from(attrs, name, 0)
}

/// The annotation that a scan for `name` selects: the first with that
/// identifier, if there is one.
pub open spec fn selected(attrs: Seq<AnnotationView>, name: Seq<char>) -> Option<AnnotationView> {
    let stop = scan_stop(attrs, name);
    if stop < attrs.len() {
        Some(attrs[stop])
    } else {
        None
    }
}

/// The diagnostic for the annotation `a` when a scan passes over it.
pub open spec fn passed_over(a: AnnotationView) -> DiagnosticView {
    DiagnosticView::UnsupportedAttribute { ident: a.ident }
}

/// One diagnostic for each of `attrs`, in order, whether it has an identifier
/// or not.
pub open spec fn unsupported(attrs: Seq<AnnotationView>) -> Seq<DiagnosticView> {
    Seq::new(attrs.len(), |i: int| passed_over(attrs[i]))
}

/// The diagnostics of a scan for `name`: one for each annotation before the
/// stop, in the order of the scan, and none for the annotation at the stop or
/// any behind it.
pub open spec fn skipped(attrs: Seq<AnnotationView>, name: Seq<char>) -> Seq<DiagnosticView> {
    unsupported(attrs.take(scan_stop(attrs, name)))
}

/// A scan stops at the first annotation with the name: the stop lies within
/// the annotations, nothing before it has the name, and what stands at it
/// has.
pub proof fn law_scan_stops_at_first_match(attrs: Seq<AnnotationView>, name: Seq<char>)
    ensures
        0 <= scan_stop(attrs, name) <= attrs.len(),
        forall|j: int| 0 <= j < scan_stop(attrs, name) ==> !is_named(#[trigger] attrs[j], name),
        scan_stop(attrs, name) < attrs.len() ==> is_named(attrs[scan_stop(attrs, name)], name),
{
    lemma_first_named_from(attrs, name, 0);
}

proof fn lemma_first_named_from(attrs: Seq<AnnotationView>, name: Seq<char>, from: int)
    requires
        0 <= from <= attrs.len(),
    ensures
        from <= first_named_from(attrs, name, from) <= attrs.len(),
        forall|j: int|
            from <= j < first_named_from(attrs, name, from) ==> !is_named(
                #[trigger] attrs[j],
                name,
            ),
        first_named_from(attrs, name, from) < attrs.len() ==> is_named(
            attrs[first_named_from(attrs, name, from)],
            name,
        ),
    decreases attrs.len() - from,
{
    if from < attrs.len() && !is_named(attrs[from], name) {
        lemma_first_named_from(attrs, name, from + 1);
    }
}

/// A scan makes as many diagnostics as it passes annotations: one for each
/// annotation before the stop, and it is the one of that annotation.
pub proof fn law_one_diagnostic_for_each_passed_over(attrs: Seq<AnnotationView>, name: Seq<char>)
    ensures
        skipped(attrs, name).len() == scan_stop(attrs, name),
        forall|j: int|
            0 <= j < scan_stop(attrs, name) ==> #[trigger] skipped(attrs, name)[j] == passed_over(
                attrs[j],
            ),
{
    lemma_first_named_from(attrs, name, 0);
}

impl Annotation {
    /// Whether the identifier of the annotation is `name`.
    pub fn is_named(&self, name: &str) -> (r: bool)
        ensures
            r == is_named(self@, name@),
    {
        match &self.ident {
            Some(ident) => same_text(ident.as_str(), name),
            None => false,
        }
    }
}

/// Scans `attrs` in order for the first annotation whose identifier is
/// `needed` and returns its index. Every annotation passed on the way, with
/// or without an identifier, adds one diagnostic to `sink`; the scan goes on.
pub fn find_field_attr(attrs: &[Annotation], needed: &str, sink: &mut Vec<Diagnostic>) -> (r:
    Option<usize>)
    ensures
        r is Some <==> scan_stop(annotation_views(attrs@), needed@) < attrs.len(),
        r matches Some(i) ==> i == scan_stop(annotation_views(attrs@), needed@),
        r is None ==> attrs.len() == scan_stop(annotation_views(attrs@), needed@),
        diagnostic_views(final(sink)@) == diagnostic_views(old(sink)@) + skipped(
            annotation_views(attrs@),
            needed@,
        ),
        final(sink)@.len() == old(sink)@.len() + match r {
            Some(i) => i as int,
            None => attrs@.len() as int,
        },
{
    let ghost views = annotation_views(attrs@);
    let ghost before = diagnostic_views(sink@);
    let mut i: usize = 0;
    while i < attrs.len()
        invariant
            i <= attrs.len(),
            views == annotation_views(attrs@),
            before == diagnostic_views(old(sink)@),
            scan_stop(views, needed@) == first_named_from(views, needed@, i as int),
            diagnostic_views(sink@) == before + unsupported(views.take(i as int)),
        decreases attrs.len() - i,
    {
        if attrs[i].is_named(needed) {
            return Some(i);
        }
        let ghost emitted = diagnostic_views(sink@);
        let d = Diagnostic::UnsupportedAttribute { ident: copy_opt_text(&attrs[i].ident) };
        sink.push(d);
        assert(diagnostic_views(sink@) =~= emitted.push(d@));
        i += 1;
    }
    None
}

/// Scans `attrs` in order for the first annotation whose identifier is
/// `needed` and returns a copy of it, or `None` if there is none. Every
/// annotation passed on the way, with or without an identifier, adds one
/// diagnostic to `sink`; the scan goes on.
pub fn get_field_attr(attrs: &[Annotation], needed: &str, sink: &mut Vec<Diagnostic>) -> (r:
    Option<Annotation>)
    ensures
        r is Some <==> selected(annotation_views(attrs@), needed@) is Some,
        r matches Some(a) ==> selected(annotation_views(attrs@), needed@) == Some(a@),
        diagnostic_views(final(sink)@) == diagnostic_views(old(sink)@) + skipped(
            annotation_views(attrs@),
            needed@,
        ),
        final(sink)@.len() == old(sink)@.len() + scan_stop(annotation_views(attrs@), needed@),
        r is None ==> final(sink)@.len() == old(sink)@.len() + attrs@.len(),
{
    match find_field_attr(attrs, needed, sink) {
        Some(i) => Some(attrs[i].clone()),
        None => None,
    }
}

} // verus!
