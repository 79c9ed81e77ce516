//! The plan builder: from a field set, the choice of its primary field and the
//! expression of the supplied value, the bindings to make and the
//! initializers of the construction expression.

use crate::directive::{
    default_name, directive_views, field_directives, resolve_field, Directive, DirectiveView,
    PlanError,
};
use crate::matching::{answers, evaluate, first_match, first_true, fitted, index_view};
use crate::model::{Field, FieldSet, FieldSetShape, FieldSetView};
use crate::select::{diagnostic_views, get_field_attr, skipped, Diagnostic, DiagnosticView};
use crate::text::{append_decimal, copy_opt_text, decimal, opt_text};
use vstd::prelude::*;
use vstd::string::StringExecFns;

verus! {

/// Where the value of a binding comes from.
#[derive(Clone, Debug, PartialEq, Eq)]
pub enum BindingValue {
    /// The supplied value, given by this expression: `let name = expr;`.
    External(String),
    /// This function, called on a reference to the instance:
    /// `let name = func(&instance);`.
    Computed(String),
}

/// What a [`BindingValue`] is in specifications.
pub enum BindingValueView {
    External(Seq<char>),
    Computed(Seq<char>),
}

impl View for BindingValue {
    type V = BindingValueView;

    open spec fn view(&self) -> BindingValueView {
        match self {
            BindingValue::External(expr) => BindingValueView::External(expr@),
            BindingValue::Computed(func) => BindingValueView::Computed(func@),
        }
    }
}

/// A statement that has to run before the construction expression.
#[derive(Clone, Debug, PartialEq, Eq)]
pub struct Binding {
    /// The name that is bound.
    pub name: String,
    /// What it is bound to.
    pub value: BindingValue,
}

/// What a [`Binding`] is in specifications.
pub struct BindingView {
    pub name: Seq<char>,
    pub value: BindingValueView,
}

impl View for Binding {
    type V = BindingView;

    open spec fn view(&self) -> BindingView {
        BindingView { name: self.name@, value: self.value@ }
    }
}

/// The views of a sequence of bindings, in order.
pub open spec fn binding_views(s: Seq<Binding>) -> Seq<BindingView> {
    s.map_values(|b: Binding| b@)
}

/// One initializer of the construction expression. With `field` given it
/// stands for `field: ...,`, without it for the bare `...,` of a positional
/// field.
#[derive(Clone, Debug, PartialEq, Eq)]
pub enum Initializer {
    /// `name,`: the value bound to `name`.
    Bound { name: String },
    /// `field: expr,` or `expr,`.
    Expr { field: Option<String>, expr: String },
    /// `field: Default::default(),` or `Default::default(),`.
    TypeDefault { field: Option<String> },
}

/// What an [`Initializer`] is in specifications.
pub enum InitializerView {
    Bound { name: Seq<char> },
    Expr { field: Option<Seq<char>>, expr: Seq<char> },
    TypeDefault { field: Option<Seq<char>> },
}

impl View for Initializer {
    type V = InitializerView;

    open spec fn view(&self) -> InitializerView {
        match self {
            Initializer::Bound { name } => InitializerView::Bound { name: name@ },
            Initializer::Expr { field, expr } => InitializerView::Expr {
                field: opt_text(*field),
                expr: expr@,
            },
            Initializer::TypeDefault { field } => InitializerView::TypeDefault {
                field: opt_text(*field),
            },
        }
    }
}

/// The views of a sequence of initializers, in order.
pub open spec fn initializer_views(s: Seq<Initializer>) -> Seq<InitializerView> {
    s.map_values(|i: Initializer| i@)
}

/// A plan for constructing a record: the bindings run first, in order; then
/// the initializers, in order, form the construction expression, in braces for
/// a named shape, in parentheses for a positional one, and empty for a unit.
/// The bindings of computed values refer to `instance`, which the user of the
/// plan declares.
#[derive(Clone, Debug, PartialEq, Eq)]
pub struct InitPlan {
    pub shape: FieldSetShape,
    pub bindings: Vec<Binding>,
    pub initializers: Vec<Initializer>,
}

/// What an [`InitPlan`] is in specifications.
pub struct InitPlanView {
    pub shape: FieldSetShape,
    pub bindings: Seq<BindingView>,
    pub initializers: Seq<InitializerView>,
}

impl View for InitPlan {
    type V = InitPlanView;

    open spec fn view(&self) -> InitPlanView {
        InitPlanView {
            shape: self.shape,
            bindings: binding_views(self.bindings@),
            initializers: initializer_views(self.initializers@),
        }
    }
}

/// The name that binds the primary field of a positional field set.
pub open spec fn instance_name() -> Seq<char> {
    "instance"@
}

/// The name made up for the computed positional field number `k`: `field0`,
/// `field1` and so on.
pub open spec fn synthetic_name(k: nat) -> Seq<char> {
    "field"@ + decimal(k)
}

/// The name that binds the primary field: its own, or `instance` if it has
/// none.
pub open spec fn primary_name(field: Option<Seq<char>>) -> Seq<char> {
    match field {
        Some(name) => name,
        None => instance_name(),
    }
}

/// The name that binds a computed field: its own, or the next made-up name if
/// it has none.
pub open spec fn computed_name(field: Option<Seq<char>>, next: nat) -> Seq<char> {
    match field {
        Some(name) => name,
        None => synthetic_name(next),
    }
}

/// A plan under construction: what has been emitted so far, and the number of
/// the next made-up name.
pub struct Draft {
    pub bindings: Seq<BindingView>,
    pub initializers: Seq<InitializerView>,
    pub next: nat,
}

/// The draft after one directive of the field named `field`.
pub open spec fn apply(draft: Draft, field: Option<Seq<char>>, directive: DirectiveView) -> Draft {
    match directive {
        DirectiveView::NoDirective => Draft {
            initializers: draft.initializers.push(InitializerView::TypeDefault { field }),
            ..draft
        },
        DirectiveView::ExplicitValue(expr) => Draft {
            initializers: draft.initializers.push(InitializerView::Expr { field, expr }),
            ..draft
        },
        DirectiveView::ComputedFromInstance(func) => {
            let name = computed_name(field, draft.next);
            Draft {
                bindings: draft.bindings.push(
                    BindingView { name, value: BindingValueView::Computed(func) },
                ),
                initializers: draft.initializers.push(InitializerView::Bound { name }),
                next: if field is None {
                    draft.next + 1
                } else {
                    draft.next
                },
            }
        },
    }
}

/// The draft after all of `directives`, in order, of the field named `field`.
pub open spec fn apply_all(
    draft: Draft,
    field: Option<Seq<char>>,
    directives: Seq<DirectiveView>,
) -> Draft
    decreases directives.len(),
{
    if directives.len() == 0 {
        draft
    } else {
        apply(apply_all(draft, field, directives.drop_last()), field, directives.last())
    }
}

/// The draft before any field is placed. With a primary field it holds the
/// binding of the supplied value, and in a named shape the primary field's
/// initializer too, which so comes first.
pub open spec fn start(fs: FieldSetView, primary: Option<int>, value: Seq<char>) -> Draft {
    match primary {
        None => Draft { bindings: Seq::empty(), initializers: Seq::empty(), next: 0 },
        Some(p) => {
            let name = primary_name(fs.fields[p].name);
            Draft {
                bindings: seq![BindingView { name, value: BindingValueView::External(value) }],
                initializers: if fs.shape == FieldSetShape::Named {
                    seq![InitializerView::Bound { name }]
                } else {
                    Seq::empty()
                },
                next: 0,
            }
        },
    }
}

/// The draft after field `i` is placed. The primary field of a positional
/// shape takes its place among the initializers here; any other field but the
/// primary one adds what its directives ask for.
pub open spec fn place(
    fs: FieldSetView,
    primary: Option<int>,
    draft: Draft,
    i: int,
    directives: Seq<DirectiveView>,
) -> Draft {
    if primary == Some(i) {
        if fs.shape == FieldSetShape::Named {
            draft
        } else {
            Draft {
                initializers: draft.initializers.push(
                    InitializerView::Bound { name: primary_name(fs.fields[i].name) },
                ),
                ..draft
            }
        }
    } else {
        apply_all(draft, fs.fields[i].name, directives)
    }
}

/// The draft after the first `n` fields are placed, where `resolved` holds
/// the directives of each field.
pub open spec fn drafted(
    fs: FieldSetView,
    primary: Option<int>,
    resolved: Seq<Seq<DirectiveView>>,
    value: Seq<char>,
    n: nat,
) -> Draft
    decreases n,
{
    if n == 0 {
        start(fs, primary, value)
    } else {
        place(
            fs,
            primary,
            drafted(fs, primary, resolved, value, (n - 1) as nat),
            n - 1,
            resolved[n - 1],
        )
    }
}

/// The plan for the field set, where `resolved` holds the directives of each
/// field (those of the primary field are not looked at).
pub open spec fn assembled(
    fs: FieldSetView,
    primary: Option<int>,
    resolved: Seq<Seq<DirectiveView>>,
    value: Seq<char>,
) -> InitPlanView {
    let draft = drafted(fs, primary, resolved, value, fs.fields.len());
    InitPlanView { shape: fs.shape, bindings: draft.bindings, initializers: draft.initializers }
}

/// The views of the directives of each field, in order.
pub open spec fn resolved_views(s: Seq<Vec<Directive>>) -> Seq<Seq<DirectiveView>> {
    s.map_values(|ds: Vec<Directive>| directive_views(ds@))
}

fn synthetic(k: usize) -> (r: String)
    ensures
        r@ == synthetic_name(k as nat),
{
    let mut name = String::from_str("field");
    append_decimal(&mut name, k);
    name
}

fn name_of_primary(field: &Option<String>) -> (r: String)
    ensures
        r@ == primary_name(opt_text(*field)),
{
    match field {
        Some(name) => name.clone(),
        None => String::from_str("instance"),
    }
}

fn apply_directives(
    field: &Option<String>,
    directives: &Vec<Directive>,
    bindings: &mut Vec<Binding>,
    initializers: &mut Vec<Initializer>,
    next: &mut usize,
)
    requires
        *old(next) <= old(bindings).len(),
    ensures
        *final(next) <= final(bindings).len(),
        (Draft {
            bindings: binding_views(final(bindings)@),
            initializers: initializer_views(final(initializers)@),
            next: *final(next) as nat,
        }) == apply_all(
            Draft {
                bindings: binding_views(old(bindings)@),
                initializers: initializer_views(old(initializers)@),
                next: *old(next) as nat,
            },
            opt_text(*field),
            directive_views(directives@),
        ),
{
    let ghost views = directive_views(directives@);
    let ghost name = opt_text(*field);
    let ghost before = Draft {
        bindings: binding_views(bindings@),
        initializers: initializer_views(initializers@),
        next: *next as nat,
    };
    let mut j: usize = 0;
    while j < directives.len()
        invariant
            j <= directives.len(),
            views == directive_views(directives@),
            name == opt_text(*field),
            *next <= bindings.len(),
            (Draft {
                bindings: binding_views(bindings@),
                initializers: initializer_views(initializers@),
                next: *next as nat,
            }) == apply_all(before, name, views.take(j as int)),
        decreases directives.len() - j,
    {
        assert(views.take(j + 1).drop_last() =~= views.take(j as int));
        let ghost bs = binding_views(bindings@);
        let ghost is = initializer_views(initializers@);
        match &directives[j] {
            Directive::NoDirective => {
                let init = Initializer::TypeDefault { field: copy_opt_text(field) };
                initializers.push(init);
                assert(initializer_views(initializers@) =~= is.push(init@));
            },
            Directive::ExplicitValue(expr) => {
                let init = Initializer::Expr { field: copy_opt_text(field), expr: expr.clone() };
                initializers.push(init);
                assert(initializer_views(initializers@) =~= is.push(init@));
            },
            Directive::ComputedFromInstance(func) => {
                let bound = match field {
                    Some(own) => own.clone(),
                    None => synthetic(*next),
                };
                let binding = Binding {
                    name: bound.clone(),
                    value: BindingValue::Computed(func.clone()),
                };
                let init = Initializer::Bound { name: bound };
                bindings.push(binding);
                initializers.push(init);
                assert(binding_views(bindings@) =~= bs.push(binding@));
                assert(initializer_views(initializers@) =~= is.push(init@));
                if field.is_none() {
                    assert(*next < bindings.len());
                    *next = *next + 1;
                }
            },
        }
        j += 1;
    }
    assert(views.take(j as int) =~= views);
}

fn is_index(primary: Option<usize>, i: usize) -> (r: bool)
    ensures
        r == (index_view(primary) == Some(i as int)),
{
    match primary {
        Some(p) => p == i,
        None => false,
    }
}

fn assemble_all(
    fields: &FieldSet,
    primary: Option<usize>,
    resolved: &[Vec<Directive>],
    value: &str,
) -> (plan: InitPlan)
    requires
        resolved.len() == fields@.fields.len(),
        primary matches Some(p) ==> p < fields@.fields.len(),
    ensures
        plan@ == assembled(fields@, index_view(primary), resolved_views(resolved@), value@),
{
    let items = fields.fields();
    let shape = fields.shape();
    let mut bindings: Vec<Binding> = Vec::new();
    let mut initializers: Vec<Initializer> = Vec::new();
    let mut next: usize = 0;
    match primary {
        Some(p) => {
            let name = name_of_primary(&items[p].name);
            if shape == FieldSetShape::Named {
                initializers.push(Initializer::Bound { name: name.clone() });
            }
            bindings.push(Binding { name, value: BindingValue::External(value.to_owned()) });
        },
        None => {},
    }
    let ghost fs = fields@;
    let ghost chosen = index_view(primary);
    let ghost rs = resolved_views(resolved@);
    assert(binding_views(bindings@) =~= start(fs, chosen, value@).bindings);
    assert(initializer_views(initializers@) =~= start(fs, chosen, value@).initializers);
    let mut i: usize = 0;
    while i < items.len()
        invariant
            i <= items.len(),
            items@ == fields.items(),
            resolved.len() == items.len(),
            fs == fields@,
            chosen == index_view(primary),
            rs == resolved_views(resolved@),
            shape == fs.shape,
            next <= bindings.len(),
            (Draft {
                bindings: binding_views(bindings@),
                initializers: initializer_views(initializers@),
                next: next as nat,
            }) == drafted(fs, chosen, rs, value@, i as nat),
        decreases items.len() - i,
    {
        if is_index(primary, i) {
            if shape != FieldSetShape::Named {
                let ghost is = initializer_views(initializers@);
                let init = Initializer::Bound { name: name_of_primary(&items[i].name) };
                initializers.push(init);
                assert(initializer_views(initializers@) =~= is.push(init@));
            }
        } else {
            apply_directives(
                &items[i].name,
                &resolved[i],
                &mut bindings,
                &mut initializers,
                &mut next,
            );
        }
        i += 1;
    }
    InitPlan { shape, bindings, initializers }
}

/// Assembles the plan for `fields` from the directives of each field:
/// `resolved[i]` holds those of field `i`, and `primary` is the index of the
/// primary field, which is bound to the expression `value`.
///
/// `None` where `resolved` has not one entry for each field, or `primary` is
/// no index of a field.
pub fn assemble(
    fields: &FieldSet,
    primary: Option<usize>,
    resolved: &[Vec<Directive>],
    value: &str,
) -> (r: Option<InitPlan>)
    ensures
        r is Some <==> resolved.len() == fields@.fields.len() && (primary matches Some(p) ==> p
            < fields@.fields.len()),
        r matches Some(plan) ==> plan@ == assembled(
            fields@,
            index_view(primary),
            resolved_views(resolved@),
            value@,
        ),
{
    let count = fields.fields().len();
    if resolved.len() != count {
        return None;
    }
    match primary {
        Some(p) => {
            if p >= count {
                return None;
            }
        },
        None => {},
    }
    Some(assemble_all(fields, primary, resolved, value))
}

/// What resolving the directives of the fields comes to: the diagnostics of
/// the scans made, and the directives of each field or the first violation.
pub struct Resolution {
    pub warnings: Seq<DiagnosticView>,
    pub directives: Result<Seq<Seq<DirectiveView>>, PlanError>,
}

/// The resolution of the first `n` fields, taken in declaration order.
///
/// The annotations of a field are scanned for `default` unless it is the
/// primary field of a named shape. The directives of the primary field are
/// not read: its entry is empty. The first violation ends the resolution, so
/// the fields behind it are neither scanned nor read.
pub open spec fn resolution(fs: FieldSetView, primary: Option<int>, n: nat) -> Resolution
    decreases n,
{
    if n == 0 {
        Resolution { warnings: Seq::empty(), directives: Ok(Seq::empty()) }
    } else {
        let before = resolution(fs, primary, (n - 1) as nat);
        let field = fs.fields[n - 1];
        match before.directives {
            Err(_) => before,
            Ok(resolved) => if primary == Some(n - 1) {
                Resolution {
                    warnings: if fs.shape == FieldSetShape::Positional {
                        before.warnings + skipped(field.attrs, default_name())
                    } else {
                        before.warnings
                    },
                    directives: Ok(resolved.push(Seq::empty())),
                }
            } else {
                Resolution {
                    warnings: before.warnings + skipped(field.attrs, default_name()),
                    directives: match field_directives(field) {
                        Err(e) => Err(e),
                        Ok(directives) => Ok(resolved.push(directives)),
                    },
                }
            },
        }
    }
}

/// What planning comes to: the diagnostics made on the way, and the plan or
/// the violation that ended planning.
pub struct Outcome {
    pub warnings: Seq<DiagnosticView>,
    pub plan: Result<InitPlanView, PlanError>,
}

/// The outcome of planning for the field set with the given primary field
/// and the expression `value` of the supplied value: the directives of all
/// fields are resolved, and if none violates the grammar, the plan is
/// assembled from them.
pub open spec fn planned(fs: FieldSetView, primary: Option<int>, value: Seq<char>) -> Outcome {
    let resolved = resolution(fs, primary, fs.fields.len());
    Outcome {
        warnings: resolved.warnings,
        plan: match resolved.directives {
            Err(e) => Err(e),
            Ok(directives) => Ok(assembled(fs, primary, directives, value)),
        },
    }
}

/// A resolution that has met a violation does not change any more.
pub proof fn lemma_resolution_stays(fs: FieldSetView, primary: Option<int>, n: nat, total: nat)
    requires
        n <= total,
        resolution(fs, primary, n).directives is Err,
    ensures
        resolution(fs, primary, total) == resolution(fs, primary, n),
    decreases total - n,
{
    if n < total {
        lemma_resolution_stays(fs, primary, n, (total - 1) as nat);
    }
}

/// A resolution without violation holds one entry for each field.
pub proof fn lemma_resolution_len(fs: FieldSetView, primary: Option<int>, n: nat)
    ensures
        resolution(fs, primary, n).directives matches Ok(resolved) ==> resolved.len() == n,
    decreases n,
{
    if n > 0 {
        lemma_resolution_len(fs, primary, (n - 1) as nat);
    }
}

/// Resolves the directives of every field but the primary one, in declaration
/// order, and stops at the first violation of the grammar. Diagnostics of the
/// scans go to `sink`.
pub fn resolve(fields: &FieldSet, primary: Option<usize>, sink: &mut Vec<Diagnostic>) -> (r: Result<
    Vec<Vec<Directive>>,
    PlanError,
>)
    ensures
        ({
            let resolved = resolution(fields@, index_view(primary), fields@.fields.len());
            &&& diagnostic_views(final(sink)@) == diagnostic_views(old(sink)@) + resolved.warnings
            &&& match r {
                Ok(directives) => resolved.directives == Ok::<Seq<Seq<DirectiveView>>, PlanError>(
                    resolved_views(directives@),
                ),
                Err(e) => resolved.directives == Err::<Seq<Seq<DirectiveView>>, PlanError>(e),
            }
        }),
{
    let items = fields.fields();
    let shape = fields.shape();
    let ghost fs = fields@;
    let ghost chosen = index_view(primary);
    let ghost before = diagnostic_views(sink@);
    let mut out: Vec<Vec<Directive>> = Vec::new();
    let mut i: usize = 0;
    assert(resolved_views(out@) =~= Seq::<Seq<DirectiveView>>::empty());
    while i < items.len()
        invariant
            i <= items.len(),
            items@ == fields.items(),
            fs == fields@,
            chosen == index_view(primary),
            shape == fs.shape,
            before == diagnostic_views(old(sink)@),
            resolution(fs, chosen, i as nat).directives == Ok::<Seq<Seq<DirectiveView>>, PlanError>(
                resolved_views(out@),
            ),
            diagnostic_views(sink@) == before + resolution(fs, chosen, i as nat).warnings,
        decreases items.len() - i,
    {
        let ghost done = resolved_views(out@);
        if is_index(primary, i) {
            if shape == FieldSetShape::Positional {
                let _ = get_field_attr(items[i].attrs.as_slice(), "default", sink);
            }
            let nothing: Vec<Directive> = Vec::new();
            assert(directive_views(nothing@) =~= Seq::<DirectiveView>::empty());
            out.push(nothing);
            assert(resolved_views(out@) =~= done.push(Seq::<DirectiveView>::empty()));
        } else {
            match resolve_field(&items[i], sink) {
                Err(e) => {
                    proof {
                        lemma_resolution_stays(fs, chosen, (i + 1) as nat, fs.fields.len());
                    }
                    return Err(e);
                },
                Ok(directives) => {
                    let ghost views = directive_views(directives@);
                    out.push(directives);
                    assert(resolved_views(out@) =~= done.push(views));
                },
            }
        }
        i += 1;
    }
    Ok(out)
}

/// Plans the construction of a record from its fields, the answers `matches`
/// of the primary predicate on them (in declaration order; a field without
/// an answer counts as not matched, and answers behind the last field are
/// left out) and the expression `value` of the supplied value.
///
/// The first field matched is the primary one and is bound to `value`; later
/// matches are fields like any other. Every other field is initialized as its
/// `default` annotation directs. A violation of the directive grammar ends
/// planning with an error and without a plan. Diagnostics go to `sink`.
pub fn plan_fields(
    fields: &FieldSet,
    matches: &[bool],
    value: &str,
    sink: &mut Vec<Diagnostic>,
) -> (r: Result<InitPlan, PlanError>)
    ensures
        ({
            let outcome = planned(
                fields@,
                first_true(fitted(matches@, fields@.fields.len())),
                value@,
            );
            &&& diagnostic_views(final(sink)@) == diagnostic_views(old(sink)@) + outcome.warnings
            &&& match r {
                Ok(plan) => outcome.plan == Ok::<InitPlanView, PlanError>(plan@),
                Err(e) => outcome.plan == Err::<InitPlanView, PlanError>(e),
            }
        }),
{
    let count = fields.fields().len();
    let primary = first_match(matches, count);
    match resolve(fields, primary, sink) {
        Err(e) => Err(e),
        Ok(resolved) => {
            proof {
                lemma_resolution_len(fields@, index_view(primary), fields@.fields.len());
            }
            Ok(assemble_all(fields, primary, resolved.as_slice(), value))
        },
    }
}

/// Plans the construction of a record from its fields, the predicate that
/// tells the primary field and the expression `value_name` of the supplied
/// value. The predicate is applied once to every field, in declaration
/// order; what follows is [`plan_fields`] on its answers.
pub fn fill_default_fields<F: Fn(&Field) -> bool>(
    fields: &FieldSet,
    field_is_needed: F,
    value_name: &str,
    sink: &mut Vec<Diagnostic>,
) -> (r: Result<InitPlan, PlanError>)
    requires
        forall|i: int|
            0 <= i < fields.items().len() ==> call_requires(
                field_is_needed,
                (&#[trigger] fields.items()[i],),
            ),
    ensures
        exists|m: Seq<bool>|
            {
                let outcome = planned(fields@, first_true(m), value_name@);
                &&& #[trigger] answers(field_is_needed, fields.items(), m)
                &&& diagnostic_views(final(sink)@) == diagnostic_views(old(sink)@)
                    + outcome.warnings
                &&& match r {
                    Ok(plan) => outcome.plan == Ok::<InitPlanView, PlanError>(plan@),
                    Err(e) => outcome.plan == Err::<InitPlanView, PlanError>(e),
                }
            },
{
    let matches = evaluate(fields, field_is_needed);
    assert(fitted(matches@, fields@.fields.len()) =~= matches@);
    plan_fields(fields, matches.as_slice(), value_name, sink)
}

} // verus!
