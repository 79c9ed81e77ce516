//! Directives: what the `default` annotation of a field asks for, and the
//! grammar of its body.

use crate::model::{Field, FieldView};
use crate::select::{diagnostic_views, get_field_attr, selected, skipped, Diagnostic};
use crate::text::{opt_text, same_text};
use quote::ToTokens;
use syn::parse::Parser;
use syn::punctuated::Punctuated;
use syn::token::Comma;
use syn::Meta;
use vstd::prelude::*;

verus! {

/// One entry of an annotation body, which is a list of entries separated by
/// commas.
#[derive(Clone, Debug, PartialEq, Eq)]
pub enum MetaEntry {
    /// A bare path, such as `skip`.
    Path,
    /// A path with a delimited list behind it, such as `align(8)`.
    List,
    /// An assignment, such as `value = 1 + 2`.
    NameValue {
        /// The identifier on the left; `None` where the left side is anything
        /// but one plain identifier.
        name: Option<String>,
        /// The source text of the expression on the right.
        value: String,
    },
}

/// What a [`MetaEntry`] is in specifications.
pub enum MetaEntryView {
    Path,
    List,
    NameValue { name: Option<Seq<char>>, value: Seq<char> },
}

impl View for MetaEntry {
    type V = MetaEntryView;

    open spec fn view(&self) -> MetaEntryView {
        match self {
            MetaEntry::Path => MetaEntryView::Path,
            MetaEntry::List => MetaEntryView::List,
            MetaEntry::NameValue { name, value } => MetaEntryView::NameValue {
                name: opt_text(*name),
                value: value@,
            },
        }
    }
}

/// The views of a sequence of entries, in order.
pub open spec fn entry_views(s: Seq<MetaEntry>) -> Seq<MetaEntryView> {
    s.map_values(|e: MetaEntry| e@)
}

/// How the initializer of a field is produced.
#[derive(Clone, Debug, PartialEq, Eq)]
pub enum Directive {
    /// The field takes the default value of its type.
    NoDirective,
    /// The field is initialized with exactly this expression.
    ExplicitValue(String),
    /// The field is initialized with the result of calling this function on a
    /// reference to the instance under construction.
    ComputedFromInstance(String),
}

/// What a [`Directive`] is in specifications.
pub enum DirectiveView {
    NoDirective,
    ExplicitValue(Seq<char>),
    ComputedFromInstance(Seq<char>),
}

impl View for Directive {
    type V = DirectiveView;

    open spec fn view(&self) -> DirectiveView {
        match self {
            Directive::NoDirective => DirectiveView::NoDirective,
            Directive::ExplicitValue(expr) => DirectiveView::ExplicitValue(expr@),
            Directive::ComputedFromInstance(func) => DirectiveView::ComputedFromInstance(func@),
        }
    }
}

/// The views of a sequence of directives, in order.
pub open spec fn directive_views(s: Seq<Directive>) -> Seq<DirectiveView> {
    s.map_values(|d: Directive| d@)
}

/// A violation of the directive grammar. Each one ends planning for the whole
/// field set.
#[derive(Clone, Copy, Debug, PartialEq, Eq, Structural)]
pub enum PlanError {
    /// The `default` annotation has no delimited body, or its body is not a
    /// list of entries separated by commas.
    MalformedBody,
    /// An entry of the body is not an assignment `name = value`.
    NotAssignment,
    /// The left side of an assignment is not one plain identifier.
    MissingIdentifier,
    /// The name of an assignment is neither `value` nor `fn_name`.
    UnknownDirective,
}

/// The identifier of the annotation that carries directives.
pub open spec fn default_name() -> Seq<char> {
    "default"@
}

/// The directive name that gives an explicit expression.
pub open spec fn value_name() -> Seq<char> {
    "value"@
}

/// The directive name that gives a function of the instance.
pub open spec fn fn_name_name() -> Seq<char> {
    "fn_name"@
}

/// The directive that one entry stands for, or the grammar violation it is.
pub open spec fn directive_for(entry: MetaEntryView) -> Result<DirectiveView, PlanError> {
    match entry {
        MetaEntryView::Path => Err(PlanError::NotAssignment),
        MetaEntryView::List => Err(PlanError::NotAssignment),
        MetaEntryView::NameValue { name: None, value } => Err(PlanError::MissingIdentifier),
        MetaEntryView::NameValue { name: Some(name), value } => if name == value_name() {
            Ok(DirectiveView::ExplicitValue(value))
        } else if name == fn_name_name() {
            Ok(DirectiveView::ComputedFromInstance(value))
        } else {
            Err(PlanError::UnknownDirective)
        },
    }
}

/// The directives that the entries stand for, in order, or the violation of
/// the first entry that is one.
pub open spec fn directives_for(entries: Seq<MetaEntryView>) -> Result<
    Seq<DirectiveView>,
    PlanError,
>
    decreases entries.len(),
{
    if entries.len() == 0 {
        Ok(Seq::empty())
    } else {
        match directives_for(entries.drop_last()) {
            Err(e) => Err(e),
            Ok(before) => match directive_for(entries.last()) {
                Err(e) => Err(e),
                Ok(d) => Ok(before.push(d)),
            },
        }
    }
}

/// The directive that `entry` stands for: `value = e` gives an explicit value,
/// `fn_name = f` a value computed from the instance. Anything else is a
/// violation.
pub fn directive_of(entry: &MetaEntry) -> (r: Result<Directive, PlanError>)
    ensures
        r is Ok <==> directive_for(entry@) is Ok,
        r matches Ok(d) ==> directive_for(entry@) == Ok::<DirectiveView, PlanError>(d@),
        r matches Err(e) ==> directive_for(entry@) == Err::<DirectiveView, PlanError>(e),
{
    match entry {
        MetaEntry::Path => Err(PlanError::NotAssignment),
        MetaEntry::List => Err(PlanError::NotAssignment),
        MetaEntry::NameValue { name: None, value: _ } => Err(PlanError::MissingIdentifier),
        MetaEntry::NameValue { name: Some(name), value } => {
            if same_text(name.as_str(), "value") {
                Ok(Directive::ExplicitValue(value.clone()))
            } else if same_text(name.as_str(), "fn_name") {
                Ok(Directive::ComputedFromInstance(value.clone()))
            } else {
                Err(PlanError::UnknownDirective)
            }
        },
    }
}

/// The directives that `entries` stand for, in order. The first entry that
/// violates the grammar decides the error.
pub fn directives_of(entries: &[MetaEntry]) -> (r: Result<Vec<Directive>, PlanError>)
    ensures
        r is Ok <==> directives_for(entry_views(entries@)) is Ok,
        r matches Ok(ds) ==> directives_for(entry_views(entries@)) == Ok::<
            Seq<DirectiveView>,
            PlanError,
        >(directive_views(ds@)),
        r matches Err(e) ==> directives_for(entry_views(entries@)) == Err::<
            Seq<DirectiveView>,
            PlanError,
        >(e),
{
    let ghost views = entry_views(entries@);
    let mut out: Vec<Directive> = Vec::new();
    let mut i: usize = 0;
    assert(directive_views(out@) =~= Seq::<DirectiveView>::empty());
    while i < entries.len()
        invariant
            i <= entries.len(),
            views == entry_views(entries@),
            directives_for(views.take(i as int)) == Ok::<Seq<DirectiveView>, PlanError>(
                directive_views(out@),
            ),
        decreases entries.len() - i,
    {
        assert(views.take(i + 1).drop_last() =~= views.take(i as int));
        let ghost done = directive_views(out@);
        match directive_of(&entries[i]) {
            Err(e) => {
                proof {
                    lemma_error_stays(views, i + 1);
                }
                return Err(e);
            },
            Ok(d) => {
                out.push(d);
                assert(directive_views(out@) =~= done.push(d@));
            },
        }
        i += 1;
    }
    assert(views.take(i as int) =~= views);
    Ok(out)
}

/// Once a prefix of the entries holds a violation, so does every longer
/// prefix, and it is the same one.
pub proof fn lemma_error_stays(entries: Seq<MetaEntryView>, n: int)
    requires
        0 <= n <= entries.len(),
        directives_for(entries.take(n)) is Err,
    ensures
        directives_for(entries) == directives_for(entries.take(n)),
    decreases entries.len() - n,
{
    if n < entries.len() {
        assert(entries.take(n + 1).drop_last() =~= entries.take(n));
        lemma_error_stays(entries, n + 1);
    } else {
        assert(entries.take(n) =~= entries);
    }
}

/// `syn::Error`, the error of the parser of `syn`. It is held, never read.
#[verifier::external_type_specification]
#[verifier::external_body]
pub struct ExSynError(syn::Error);

/// The entries that the parser of `syn` reads from the text of an annotation
/// body, or `None` where it rejects the text.
///
/// The text is lexed and the expressions are printed by `proc_macro2` itself,
/// which this crate builds without its bridge to the compiler: the result
/// does not depend on the process that asks. A build that switches the
/// feature `proc-macro` of `proc_macro2` on is not covered: inside a macro
/// expansion the compiler would then lex and print, and space the texts of
/// the expressions in its own way.
pub uninterp spec fn parsed_entries(body: Seq<char>) -> Option<Seq<MetaEntryView>>;

/// Parses `body` as a list of `syn::Meta` separated by commas, with
/// `syn::punctuated::Punctuated::<syn::Meta, syn::token::Comma>::parse_terminated`
/// run on the text by `syn::parse::Parser::parse_str`. Each `syn::Meta` is
/// handed on as an entry: its variant, and for a `syn::Meta::NameValue` the
/// identifier of its path as `syn::Path::get_ident` gives it, and the tokens
/// of its expression (`quote::ToTokens::to_token_stream`) as text.
///
/// Trusted: that the outcome is a function of the text alone, named
/// [`parsed_entries`], with an error exactly where that function has `None`.
/// Nothing is claimed of which texts are accepted, nor of what the entries
/// are. The parser of expressions calls itself for what is nested: a text
/// nested deeper than the stack holds is beyond it, as a text longer than
/// memory is.
#[verifier::external_body]
fn parse_entries(body: &str) -> (r: Result<Vec<MetaEntry>, syn::Error>)
    ensures
        r is Ok <==> parsed_entries(body@) is Some,
        r matches Ok(entries) ==> parsed_entries(body@) == Some(entry_views(entries@)),
{
    let metas = Punctuated::<Meta, Comma>::parse_terminated.parse_str(body)?;
    Ok(metas.into_iter().map(|meta| match meta {
        Meta::Path(_) => MetaEntry::Path,
        Meta::List(_) => MetaEntry::List,
        Meta::NameValue(pair) => MetaEntry::NameValue {
            name: pair.path.get_ident().map(|ident| ident.to_string()),
            value: pair.value.to_token_stream().to_string(),
        },
    }).collect())
}

/// The directives that the text of an annotation body gives: the body is
/// parsed into entries, and each entry stands for one directive.
pub open spec fn body_directives(body: Seq<char>) -> Result<Seq<DirectiveView>, PlanError> {
    match parsed_entries(body) {
        None => Err(PlanError::MalformedBody),
        Some(entries) => directives_for(entries),
    }
}

/// The entries of an annotation body, or `None` where the body is no list of
/// entries separated by commas.
pub fn entries_in(body: &str) -> (r: Option<Vec<MetaEntry>>)
    ensures
        r is Some <==> parsed_entries(body@) is Some,
        r matches Some(entries) ==> parsed_entries(body@) == Some(entry_views(entries@)),
{
    match parse_entries(body) {
        Ok(entries) => Some(entries),
        Err(_) => None,
    }
}

/// The directives that an annotation body gives, in the order of its entries.
pub fn directives_in(body: &str) -> (r: Result<Vec<Directive>, PlanError>)
    ensures
        r is Ok <==> body_directives(body@) is Ok,
        r matches Ok(ds) ==> body_directives(body@) == Ok::<Seq<DirectiveView>, PlanError>(
            directive_views(ds@),
        ),
        r matches Err(e) ==> body_directives(body@) == Err::<Seq<DirectiveView>, PlanError>(e),
{
    match entries_in(body) {
        None => Err(PlanError::MalformedBody),
        Some(entries) => directives_of(entries.as_slice()),
    }
}

/// The directives of a field: none but [`DirectiveView::NoDirective`] where the
/// field has no `default` annotation, else those of that annotation's body.
pub open spec fn field_directives(field: FieldView) -> Result<Seq<DirectiveView>, PlanError> {
    match selected(field.attrs, default_name()) {
        None => Ok(seq![DirectiveView::NoDirective]),
        Some(annotation) => match annotation.body {
            None => Err(PlanError::MalformedBody),
            Some(body) => body_directives(body),
        },
    }
}

/// Resolves the directives of `field`: selects its `default` annotation, which
/// may add diagnostics to `sink`, and reads the directives from its body.
pub fn resolve_field(field: &Field, sink: &mut Vec<Diagnostic>) -> (r: Result<
    Vec<Directive>,
    PlanError,
>)
    ensures
        r is Ok <==> field_directives(field@) is Ok,
        r matches Ok(ds) ==> field_directives(field@) == Ok::<Seq<DirectiveView>, PlanError>(
            directive_views(ds@),
        ),
        r matches Err(e) ==> field_directives(field@) == Err::<Seq<DirectiveView>, PlanError>(e),
        diagnostic_views(final(sink)@) == diagnostic_views(old(sink)@) + skipped(
            field@.attrs,
            default_name(),
        ),
{
    match get_field_attr(field.attrs.as_slice(), "default", sink) {
        None => {
            let mut ds: Vec<Directive> = Vec::new();
            ds.push(Directive::NoDirective);
            assert(directive_views(ds@) =~= seq![DirectiveView::NoDirective]);
            Ok(ds)
        },
        Some(annotation) => match &annotation.body {
            None => Err(PlanError::MalformedBody),
            Some(body) => directives_in(body.as_str()),
        },
    }
}

} // verus!
