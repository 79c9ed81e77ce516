//! What holds of every plan.

use crate::directive::{
    default_name, directive_for, directives_for, field_directives, fn_name_name, parsed_entries,
    value_name, DirectiveView, MetaEntryView, PlanError,
};
use crate::emit::{construction_text, initializer_text};
use crate::matching::{first_true, lemma_first_true};
use crate::model::{FieldSetShape, FieldSetView, FieldView};
use crate::plan::{
    apply, apply_all, assembled, drafted, instance_name, lemma_resolution_stays, planned,
    primary_name, resolution, synthetic_name, BindingValueView, BindingView, Draft, InitPlanView,
    InitializerView, Outcome, Resolution,
};
use crate::select::{scan_stop, selected, skipped, DiagnosticView};
use crate::text::{decimal, law_decimal_tells_numbers_apart};
use vstd::prelude::*;

verus! {

/// What a run of directives of one field adds to a draft: one initializer for
/// each directive, and behind the bindings already made nothing but bindings
/// of computed values, which for a field without a name carry the made-up
/// names in counting order.
pub proof fn lemma_apply_all(draft: Draft, field: Option<Seq<char>>, directives: Seq<DirectiveView>)
    ensures
        ({
            let after = apply_all(draft, field, directives);
            &&& after.bindings.len() >= draft.bindings.len()
            &&& after.bindings.take(draft.bindings.len() as int) == draft.bindings
            &&& after.initializers.len() == draft.initializers.len() + directives.len()
            &&& after.initializers.take(draft.initializers.len() as int) == draft.initializers
            &&& after.next >= draft.next
            &&& forall|j: int|
                draft.bindings.len() <= j < after.bindings.len() ==> (
                #[trigger] after.bindings[j]).value is Computed
            &&& field is Some ==> after.next == draft.next
            &&& field is None ==> after.next - draft.next == after.bindings.len()
                - draft.bindings.len()
            &&& field is None ==> forall|j: int|
                draft.bindings.len() <= j < after.bindings.len() ==> (
                #[trigger] after.bindings[j]).name == synthetic_name(
                    (draft.next + j - draft.bindings.len()) as nat,
                )
        }),
    decreases directives.len(),
{
    if directives.len() > 0 {
        lemma_apply_all(draft, field, directives.drop_last());
    }
}

/// A field without annotations has no directive and its scan says nothing.
pub proof fn lemma_unannotated_field(field: FieldView)
    requires
        field.attrs.len() == 0,
    ensures
        field_directives(field) == Ok::<Seq<DirectiveView>, PlanError>(
            seq![DirectiveView::NoDirective],
        ),
        skipped(field.attrs, default_name()) == Seq::<DiagnosticView>::empty(),
{
}

/// The initializers by which every field takes the default of its type.
pub open spec fn all_defaults(fields: Seq<FieldView>) -> Seq<InitializerView> {
    Seq::new(fields.len(), |i: int| InitializerView::TypeDefault { field: fields[i].name })
}

proof fn lemma_unannotated_prefix(fs: FieldSetView, value: Seq<char>, n: nat)
    requires
        n <= fs.fields.len(),
        forall|i: int| 0 <= i < fs.fields.len() ==> (#[trigger] fs.fields[i]).attrs.len() == 0,
    ensures
        resolution(fs, None, n) == (Resolution {
            warnings: Seq::empty(),
            directives: Ok(Seq::new(n, |i: int| seq![DirectiveView::NoDirective])),
        }),
        drafted(
            fs,
            None,
            Seq::new(fs.fields.len(), |i: int| seq![DirectiveView::NoDirective]),
            value,
            n,
        ) == (Draft {
            bindings: Seq::empty(),
            initializers: all_defaults(fs.fields).take(n as int),
            next: 0,
        }),
    decreases n,
{
    let resolved = Seq::new(fs.fields.len(), |i: int| seq![DirectiveView::NoDirective]);
    if n == 0 {
        assert(Seq::new(0, |i: int| seq![DirectiveView::NoDirective]) =~= Seq::<
            Seq<DirectiveView>,
        >::empty());
        assert(all_defaults(fs.fields).take(0) =~= Seq::<InitializerView>::empty());
    } else {
        lemma_unannotated_prefix(fs, value, (n - 1) as nat);
        let field = fs.fields[n - 1];
        lemma_unannotated_field(field);
        assert(Seq::new((n - 1) as nat, |i: int| seq![DirectiveView::NoDirective]).push(
            seq![DirectiveView::NoDirective],
        ) =~= Seq::new(n, |i: int| seq![DirectiveView::NoDirective]));
        let draft = drafted(fs, None, resolved, value, (n - 1) as nat);
        let single = seq![DirectiveView::NoDirective];
        assert(apply_all(draft, field.name, single) == apply(
            apply_all(draft, field.name, single.drop_last()),
            field.name,
            single.last(),
        ));
        assert(all_defaults(fs.fields).take(n as int) =~= all_defaults(fs.fields).take(
            n - 1,
        ).push(InitializerView::TypeDefault { field: field.name }));
    }
}

/// Where no field is annotated and the predicate matches none, every field
/// takes the default of its type, in declaration order and under its own
/// name; nothing is bound and nothing is remarked.
pub proof fn law_unannotated_fields_take_defaults(fs: FieldSetView, m: Seq<bool>, value: Seq<char>)
    requires
        forall|i: int| 0 <= i < fs.fields.len() ==> (#[trigger] fs.fields[i]).attrs.len() == 0,
        forall|i: int| 0 <= i < m.len() ==> !#[trigger] m[i],
    ensures
        planned(fs, first_true(m), value) == (Outcome {
            warnings: Seq::empty(),
            plan: Ok(
                InitPlanView {
                    shape: fs.shape,
                    bindings: Seq::empty(),
                    initializers: all_defaults(fs.fields),
                },
            ),
        }),
        forall|i: int|
            0 <= i < fs.fields.len() ==> initializer_text(#[trigger] all_defaults(fs.fields)[i])
                == match fs.fields[i].name {
                Some(name) => name + ": Default::default(),"@,
                None => "Default::default(),"@,
            },
{
    lemma_first_true(m);
    lemma_unannotated_prefix(fs, value, fs.fields.len());
    assert(all_defaults(fs.fields).take(fs.fields.len() as int) =~= all_defaults(fs.fields));
}

/// A field set without fields has the empty plan: nothing is bound, nothing
/// is initialized, nothing is remarked, whatever the supplied value is.
pub proof fn law_plan_without_fields_is_empty(fs: FieldSetView, m: Seq<bool>, value: Seq<char>)
    requires
        fs.fields.len() == 0,
        m.len() == 0,
    ensures
        planned(fs, first_true(m), value) == (Outcome {
            warnings: Seq::empty(),
            plan: Ok(
                InitPlanView {
                    shape: fs.shape,
                    bindings: Seq::empty(),
                    initializers: Seq::empty(),
                },
            ),
        }),
        fs.shape == FieldSetShape::Unit ==> construction_text(
            planned(fs, first_true(m), value).plan->Ok_0,
        ) == Seq::<char>::empty(),
{
}

/// The number of bindings that the primary field accounts for: one if there
/// is a primary field, none if there is not.
pub open spec fn primary_bindings(primary: Option<int>) -> int {
    if primary is Some {
        1
    } else {
        0
    }
}

/// The bindings of a draft: first that of the primary field, if there is one,
/// bound to the supplied value; behind it bindings of computed values only.
/// As long as no field placed has a name, the computed bindings carry the
/// made-up names in counting order.
pub proof fn lemma_drafted_bindings(
    fs: FieldSetView,
    primary: Option<int>,
    resolved: Seq<Seq<DirectiveView>>,
    value: Seq<char>,
    n: nat,
)
    ensures
        ({
            let draft = drafted(fs, primary, resolved, value, n);
            let skip = primary_bindings(primary);
            &&& draft.bindings.len() >= skip
            &&& primary matches Some(p) ==> draft.bindings[0] == (BindingView {
                name: primary_name(fs.fields[p].name),
                value: BindingValueView::External(value),
            })
            &&& forall|j: int|
                skip <= j < draft.bindings.len() ==> (#[trigger] draft.bindings[j]).value
                    is Computed
            &&& (forall|i: int| 0 <= i < n ==> (#[trigger] fs.fields[i]).name is None)
                ==> draft.bindings.len() == skip + draft.next && forall|j: int|
                skip <= j < draft.bindings.len() ==> (#[trigger] draft.bindings[j]).name
                    == synthetic_name((j - skip) as nat)
        }),
    decreases n,
{
    if n > 0 {
        let before = drafted(fs, primary, resolved, value, (n - 1) as nat);
        let after = drafted(fs, primary, resolved, value, n);
        lemma_drafted_bindings(fs, primary, resolved, value, (n - 1) as nat);
        if primary != Some(n - 1) {
            lemma_apply_all(before, fs.fields[n - 1].name, resolved[n - 1]);
            assert forall|j: int| 0 <= j < before.bindings.len() implies after.bindings[j]
                == before.bindings[j] by {}
        }
    }
}

proof fn lemma_named_primary_comes_first(
    fs: FieldSetView,
    p: int,
    resolved: Seq<Seq<DirectiveView>>,
    value: Seq<char>,
    n: nat,
)
    requires
        fs.shape == FieldSetShape::Named,
    ensures
        ({
            let draft = drafted(fs, Some(p), resolved, value, n);
            &&& draft.initializers.len() >= 1
            &&& draft.initializers[0] == (InitializerView::Bound {
                name: primary_name(fs.fields[p].name),
            })
        }),
    decreases n,
{
    if n > 0 {
        let before = drafted(fs, Some(p), resolved, value, (n - 1) as nat);
        lemma_named_primary_comes_first(fs, p, resolved, value, (n - 1) as nat);
        if p != n - 1 {
            lemma_apply_all(before, fs.fields[n - 1].name, resolved[n - 1]);
        }
    }
}

proof fn lemma_draft_without_primary(
    fs: FieldSetView,
    resolved: Seq<Seq<DirectiveView>>,
    v1: Seq<char>,
    v2: Seq<char>,
    n: nat,
)
    ensures
        drafted(fs, None, resolved, v1, n) == drafted(fs, None, resolved, v2, n),
    decreases n,
{
    if n > 0 {
        lemma_draft_without_primary(fs, resolved, v1, v2, (n - 1) as nat);
    }
}

/// Where the predicate matches no field, the expression of the supplied
/// value has no part in the outcome: planning with any other expression
/// comes to the same, and no binding of the plan is bound to the supplied
/// value.
pub proof fn law_no_match_leaves_value_out(
    fs: FieldSetView,
    m: Seq<bool>,
    v1: Seq<char>,
    v2: Seq<char>,
)
    requires
        forall|i: int| 0 <= i < m.len() ==> !#[trigger] m[i],
    ensures
        planned(fs, first_true(m), v1) == planned(fs, first_true(m), v2),
        planned(fs, first_true(m), v1).plan matches Ok(plan) ==> forall|j: int|
            0 <= j < plan.bindings.len() ==> (#[trigger] plan.bindings[j]).value is Computed,
{
    lemma_first_true(m);
    match resolution(fs, None, fs.fields.len()).directives {
        Ok(resolved) => {
            lemma_draft_without_primary(fs, resolved, v1, v2, fs.fields.len());
            lemma_drafted_bindings(fs, None, resolved, v1, fs.fields.len());
        },
        Err(_) => {},
    }
}

/// The answers that mark field `p` of `count` fields and no other.
pub open spec fn only(p: int, count: nat) -> Seq<bool> {
    Seq::new(count, |i: int| i == p)
}

/// Where the predicate matches one field or more, the first one matched, in
/// declaration order, is the primary field: it alone is bound to the supplied
/// value, by the first binding of the plan. Every later match is treated as
/// a field that is not matched: the outcome is the one for the predicate
/// that matches the first field only.
pub proof fn law_first_match_alone_is_primary(fs: FieldSetView, m: Seq<bool>, value: Seq<char>)
    requires
        m.len() == fs.fields.len(),
        exists|i: int| 0 <= i < m.len() && m[i],
    ensures
        first_true(m) matches Some(p) && 0 <= p < m.len() && m[p] && forall|i: int|
            0 <= i < p ==> !#[trigger] m[i],
        planned(fs, first_true(m), value) == planned(
            fs,
            first_true(only(first_true(m)->0, m.len())),
            value,
        ),
        planned(fs, first_true(m), value).plan matches Ok(plan) ==> {
            &&& plan.bindings.len() >= 1
            &&& plan.bindings[0] == (BindingView {
                name: primary_name(fs.fields[first_true(m)->0].name),
                value: BindingValueView::External(value),
            })
            &&& forall|j: int|
                1 <= j < plan.bindings.len() ==> (#[trigger] plan.bindings[j]).value is Computed
            &&& fs.shape == FieldSetShape::Named ==> plan.initializers.len() >= 1
                && plan.initializers[0] == (InitializerView::Bound {
                name: primary_name(fs.fields[first_true(m)->0].name),
            })
        },
{
    lemma_first_true(m);
    let p = first_true(m)->0;
    let alone = only(p, m.len());
    lemma_first_true(alone);
    assert(alone[p]);
    match resolution(fs, Some(p), fs.fields.len()).directives {
        Ok(resolved) => {
            lemma_drafted_bindings(fs, Some(p), resolved, value, fs.fields.len());
            if fs.shape == FieldSetShape::Named {
                lemma_named_primary_comes_first(fs, p, resolved, value, fs.fields.len());
            }
        },
        Err(_) => {},
    }
}

/// In a positional field set the bindings of computed fields are named
/// `field0`, `field1` and so on in the order of the fields, whatever stands
/// between them; the binding of the primary field, if there is one, comes
/// before them under the name `instance`.
pub proof fn law_synthetic_names_count_up(fs: FieldSetView, m: Seq<bool>, value: Seq<char>)
    requires
        fs.well_formed(),
        fs.shape == FieldSetShape::Positional,
        m.len() == fs.fields.len(),
    ensures
        planned(fs, first_true(m), value).plan matches Ok(plan) ==> {
            let skip = primary_bindings(first_true(m));
            &&& plan.bindings.len() >= skip
            &&& first_true(m) is Some ==> plan.bindings[0] == (BindingView {
                name: instance_name(),
                value: BindingValueView::External(value),
            })
            &&& forall|j: int|
                skip <= j < plan.bindings.len() ==> (#[trigger] plan.bindings[j]).name
                    == synthetic_name((j - skip) as nat) && plan.bindings[j].value is Computed
        },
{
    lemma_first_true(m);
    match resolution(fs, first_true(m), fs.fields.len()).directives {
        Ok(resolved) => {
            lemma_drafted_bindings(fs, first_true(m), resolved, value, fs.fields.len());
        },
        Err(_) => {},
    }
}

/// The entries of a body give directives exactly where each of them does,
/// and then one directive for each entry, in order.
pub proof fn law_entries_give_directives(entries: Seq<MetaEntryView>)
    ensures
        directives_for(entries) is Ok <==> forall|j: int|
            0 <= j < entries.len() ==> directive_for(#[trigger] entries[j]) is Ok,
        directives_for(entries) matches Ok(directives) ==> directives.len() == entries.len()
            && forall|j: int|
            0 <= j < entries.len() ==> directive_for(#[trigger] entries[j]) == Ok::<
                DirectiveView,
                PlanError,
            >(directives[j]),
    decreases entries.len(),
{
    if entries.len() > 0 {
        let front = entries.drop_last();
        law_entries_give_directives(front);
        assert forall|j: int| 0 <= j < front.len() implies front[j] == entries[j] by {}
    }
}

/// Among the entries of a body the first that violates the grammar decides
/// the error.
pub proof fn law_first_entry_violation_decides(entries: Seq<MetaEntryView>, j: int)
    requires
        0 <= j < entries.len(),
        directive_for(entries[j]) is Err,
        forall|k: int| 0 <= k < j ==> directive_for(#[trigger] entries[k]) is Ok,
    ensures
        directives_for(entries) == Err::<Seq<DirectiveView>, PlanError>(
            directive_for(entries[j])->Err_0,
        ),
    decreases entries.len(),
{
    let front = entries.drop_last();
    if j < entries.len() - 1 {
        assert forall|k: int| 0 <= k <= j implies front[k] == entries[k] by {}
        law_first_entry_violation_decides(front, j);
    } else {
        assert forall|k: int| 0 <= k < front.len() implies directive_for(#[trigger] front[k])
            is Ok by {
            assert(front[k] == entries[k]);
        }
        law_entries_give_directives(front);
    }
}

/// A resolution without violation holds, for every field but the primary
/// one, the directives of that field.
pub proof fn law_resolution_holds_field_directives(
    fs: FieldSetView,
    primary: Option<int>,
    n: nat,
)
    ensures
        resolution(fs, primary, n).directives matches Ok(resolved) ==> resolved.len() == n
            && forall|i: int|
            0 <= i < n && primary != Some(i) ==> field_directives(fs.fields[i]) == Ok::<
                Seq<DirectiveView>,
                PlanError,
            >(#[trigger] resolved[i]),
    decreases n,
{
    if n > 0 {
        law_resolution_holds_field_directives(fs, primary, (n - 1) as nat);
    }
}

proof fn lemma_resolution_fails(fs: FieldSetView, primary: Option<int>, i: int, n: nat)
    requires
        0 <= i < n,
        primary != Some(i),
        field_directives(fs.fields[i]) is Err,
    ensures
        resolution(fs, primary, n).directives is Err,
    decreases n,
{
    if i < n - 1 {
        lemma_resolution_fails(fs, primary, i, (n - 1) as nat);
    }
}

proof fn lemma_resolution_succeeds(fs: FieldSetView, primary: Option<int>, n: nat)
    requires
        forall|i: int|
            0 <= i < n && primary != Some(i) ==> field_directives(#[trigger] fs.fields[i]) is Ok,
    ensures
        resolution(fs, primary, n).directives is Ok,
    decreases n,
{
    if n > 0 {
        lemma_resolution_succeeds(fs, primary, (n - 1) as nat);
    }
}

/// Planning gives a plan exactly where the directives of every field but the
/// primary one keep to the grammar. One violation, at whatever field, leaves
/// no plan at all.
pub proof fn law_plan_exists_iff_grammar_holds(fs: FieldSetView, m: Seq<bool>, value: Seq<char>)
    requires
        m.len() == fs.fields.len(),
    ensures
        planned(fs, first_true(m), value).plan is Ok <==> forall|i: int|
            0 <= i < fs.fields.len() && first_true(m) != Some(i) ==> field_directives(
                #[trigger] fs.fields[i],
            ) is Ok,
{
    let primary = first_true(m);
    if forall|i: int|
        0 <= i < fs.fields.len() && primary != Some(i) ==> field_directives(
            #[trigger] fs.fields[i],
        ) is Ok {
        lemma_resolution_succeeds(fs, primary, fs.fields.len());
    } else {
        let i = choose|i: int|
            0 <= i < fs.fields.len() && primary != Some(i) && !(field_directives(
                #[trigger] fs.fields[i],
            ) is Ok);
        lemma_resolution_fails(fs, primary, i, fs.fields.len());
    }
}

/// Among the fields the first, in declaration order, whose directives violate
/// the grammar decides the error of planning; the primary field is passed
/// over.
pub proof fn law_first_field_violation_decides(
    fs: FieldSetView,
    m: Seq<bool>,
    value: Seq<char>,
    i: int,
)
    requires
        m.len() == fs.fields.len(),
        0 <= i < fs.fields.len(),
        first_true(m) != Some(i),
        field_directives(fs.fields[i]) is Err,
        forall|k: int|
            0 <= k < i && first_true(m) != Some(k) ==> field_directives(#[trigger] fs.fields[k])
                is Ok,
    ensures
        planned(fs, first_true(m), value).plan == Err::<InitPlanView, PlanError>(
            field_directives(fs.fields[i])->Err_0,
        ),
{
    let primary = first_true(m);
    lemma_resolution_succeeds(fs, primary, i as nat);
    lemma_resolution_stays(fs, primary, (i + 1) as nat, fs.fields.len());
}

/// Whether the `default` annotation of `field` has a body whose entry
/// number `j` is an assignment to a name that is neither `value` nor
/// `fn_name`.
pub open spec fn has_unrecognized_directive(field: FieldView, j: int) -> bool {
    &&& selected(field.attrs, default_name()) matches Some(annotation)
    &&& annotation.body matches Some(body)
    &&& parsed_entries(body) matches Some(entries)
    &&& 0 <= j < entries.len()
    &&& entries[j] matches MetaEntryView::NameValue { name: Some(name), .. }
    &&& name != value_name()
    &&& name != fn_name_name()
}

/// A body with an entry whose name is neither `value` nor `fn_name` ends
/// planning for the whole field set: where the `default` annotation of a
/// field other than the primary one has such a body, there is no plan.
pub proof fn law_unrecognized_directive_aborts(
    fs: FieldSetView,
    m: Seq<bool>,
    value: Seq<char>,
    i: int,
    j: int,
)
    requires
        m.len() == fs.fields.len(),
        0 <= i < fs.fields.len(),
        first_true(m) != Some(i),
    ensures
        has_unrecognized_directive(fs.fields[i], j) ==> planned(fs, first_true(m), value).plan
            is Err,
{
    if has_unrecognized_directive(fs.fields[i], j) {
        let body = selected(fs.fields[i].attrs, default_name())->0.body->0;
        let entries = parsed_entries(body)->0;
        law_entries_give_directives(entries);
        lemma_resolution_fails(fs, first_true(m), i, fs.fields.len());
    }
}

/// Planning is a function of what its inputs hold: field sets with the same
/// view, the same answers and the same expression come to the same
/// diagnostics and the same plan or error.
pub proof fn law_same_inputs_same_outcome(
    fs1: FieldSetView,
    fs2: FieldSetView,
    m1: Seq<bool>,
    m2: Seq<bool>,
    v1: Seq<char>,
    v2: Seq<char>,
)
    requires
        fs1.shape == fs2.shape,
        fs1.fields =~= fs2.fields,
        m1 =~= m2,
        v1 =~= v2,
    ensures
        planned(fs1, first_true(m1), v1) == planned(fs2, first_true(m2), v2),
{
}

/// No two made-up names are the same: the names of the computed fields of a
/// positional field set are unique.
pub proof fn law_synthetic_names_differ(a: nat, b: nat)
    requires
        synthetic_name(a) == synthetic_name(b),
    ensures
        a == b,
{
    let stem = "field"@;
    assert((stem + decimal(a)).subrange(stem.len() as int, (stem + decimal(a)).len() as int)
        =~= decimal(a));
    assert((stem + decimal(b)).subrange(stem.len() as int, (stem + decimal(b)).len() as int)
        =~= decimal(b));
    law_decimal_tells_numbers_apart(a, b);
}

/// Where the initializer of field `i` stands in the construction expression,
/// if every field has one: at the field's own index, but that in a named
/// shape the primary field comes first and the fields before it move up by
/// one.
pub open spec fn slot(shape: FieldSetShape, primary: Option<int>, i: int) -> int {
    match primary {
        Some(p) => if shape != FieldSetShape::Named || i > p {
            i
        } else if i == p {
            0
        } else {
            i + 1
        },
        None => i,
    }
}

/// Whether `initializer` is what the one directive `directive` of the field
/// named `field` asks for in `plan`: the default of the type, the explicit
/// expression, or the name of a binding of the plan that is computed by the
/// directive's function. The name is the field's own if it has one.
pub open spec fn initializes(
    plan: InitPlanView,
    initializer: InitializerView,
    field: Option<Seq<char>>,
    directive: DirectiveView,
) -> bool {
    match directive {
        DirectiveView::NoDirective => initializer == (InitializerView::TypeDefault { field }),
        DirectiveView::ExplicitValue(expr) => initializer == (InitializerView::Expr {
            field,
            expr,
        }),
        DirectiveView::ComputedFromInstance(func) => {
            &&& initializer matches InitializerView::Bound { name }
            &&& field matches Some(own) ==> name == own
            &&& exists|j: int|
                0 <= j < plan.bindings.len() && #[trigger] plan.bindings[j] == (BindingView {
                    name,
                    value: BindingValueView::Computed(func),
                })
        },
    }
}

spec fn filled(shape: FieldSetShape, primary: Option<int>, n: nat) -> nat {
    match primary {
        Some(p) => if shape == FieldSetShape::Named && p >= n {
            n + 1
        } else {
            n
        },
        None => n,
    }
}

proof fn lemma_apply_one(draft: Draft, field: Option<Seq<char>>, directives: Seq<DirectiveView>)
    requires
        directives.len() == 1,
    ensures
        apply_all(draft, field, directives) == apply(draft, field, directives[0]),
{
    assert(apply_all(draft, field, directives.drop_last()) == draft);
}

proof fn lemma_one_initializer_each(
    fs: FieldSetView,
    primary: Option<int>,
    resolved: Seq<Seq<DirectiveView>>,
    value: Seq<char>,
    n: nat,
)
    requires
        n <= fs.fields.len(),
        resolved.len() == fs.fields.len(),
        primary matches Some(p) ==> 0 <= p < fs.fields.len(),
        forall|i: int|
            0 <= i < fs.fields.len() && primary != Some(i) ==> (#[trigger] resolved[i]).len() == 1,
    ensures
        ({
            let draft = drafted(fs, primary, resolved, value, n);
            let plan = InitPlanView {
                shape: fs.shape,
                bindings: draft.bindings,
                initializers: draft.initializers,
            };
            &&& draft.initializers.len() == filled(fs.shape, primary, n)
            &&& forall|i: int|
                0 <= i < n ==> 0 <= #[trigger] slot(fs.shape, primary, i)
                    < draft.initializers.len()
            &&& primary matches Some(p) ==> p < n ==> draft.initializers[slot(
                fs.shape,
                primary,
                p,
            )] == (InitializerView::Bound { name: primary_name(fs.fields[p].name) })
            &&& forall|i: int|
                0 <= i < n && primary != Some(i) ==> initializes(
                    plan,
                    draft.initializers[slot(fs.shape, primary, i)],
                    fs.fields[i].name,
                    (#[trigger] resolved[i])[0],
                )
        }),
    decreases n,
{
    if n > 0 {
        let before = drafted(fs, primary, resolved, value, (n - 1) as nat);
        let after = drafted(fs, primary, resolved, value, n);
        let plan_before = InitPlanView {
            shape: fs.shape,
            bindings: before.bindings,
            initializers: before.initializers,
        };
        let plan = InitPlanView {
            shape: fs.shape,
            bindings: after.bindings,
            initializers: after.initializers,
        };
        lemma_one_initializer_each(fs, primary, resolved, value, (n - 1) as nat);
        if n == 1 && primary is Some && fs.shape == FieldSetShape::Named {
            lemma_named_primary_comes_first(fs, primary->0, resolved, value, 0);
        }
        let field = fs.fields[n - 1].name;
        if primary != Some(n - 1) {
            lemma_apply_one(before, field, resolved[n - 1]);
            lemma_apply_all(before, field, resolved[n - 1]);
        }
        assert forall|k: int| 0 <= k < before.initializers.len() implies after.initializers[k]
            == before.initializers[k] by {
            if primary != Some(n - 1) {
                assert(after.initializers.take(before.initializers.len() as int)[k]
                    == after.initializers[k]);
            }
        }
        assert forall|k: int| 0 <= k < before.bindings.len() implies after.bindings[k]
            == before.bindings[k] by {
            if primary != Some(n - 1) {
                assert(after.bindings.take(before.bindings.len() as int)[k] == after.bindings[k]);
            }
        }
        if fs.shape == FieldSetShape::Named && primary is Some {
            lemma_named_primary_comes_first(fs, primary->0, resolved, value, n);
        }
        assert forall|i: int| 0 <= i < n && primary != Some(i) implies initializes(
            plan,
            after.initializers[slot(fs.shape, primary, i)],
            fs.fields[i].name,
            (#[trigger] resolved[i])[0],
        ) by {
            let at = slot(fs.shape, primary, i);
            if i < n - 1 {
                assert(initializes(
                    plan_before,
                    before.initializers[at],
                    fs.fields[i].name,
                    resolved[i][0],
                ));
                match resolved[i][0] {
                    DirectiveView::ComputedFromInstance(func) => {
                        let name = before.initializers[at]->Bound_name;
                        let j = choose|j: int|
                            0 <= j < plan_before.bindings.len()
                                && #[trigger] plan_before.bindings[j] == (BindingView {
                                name,
                                value: BindingValueView::Computed(func),
                            });
                        assert(plan.bindings[j] == (BindingView {
                            name,
                            value: BindingValueView::Computed(func),
                        }));
                    },
                    _ => {},
                }
            } else {
                assert(at == before.initializers.len());
                match resolved[i][0] {
                    DirectiveView::ComputedFromInstance(func) => {
                        let j = before.bindings.len() as int;
                        assert(plan.bindings[j] == (BindingView {
                            name: after.initializers[at]->Bound_name,
                            value: BindingValueView::Computed(func),
                        }));
                    },
                    _ => {},
                }
            }
        }
    }
}

/// Where every field but the primary one has exactly one directive, the
/// construction expression has one initializer for each field, in
/// declaration order, but that in a named shape the primary field comes
/// first. The initializer of the primary field is the name it is bound to;
/// that of any other field is what its directive asks for.
pub proof fn law_one_initializer_for_each_field(
    fs: FieldSetView,
    primary: Option<int>,
    resolved: Seq<Seq<DirectiveView>>,
    value: Seq<char>,
)
    requires
        resolved.len() == fs.fields.len(),
        primary matches Some(p) ==> 0 <= p < fs.fields.len(),
        forall|i: int|
            0 <= i < fs.fields.len() && primary != Some(i) ==> (#[trigger] resolved[i]).len() == 1,
    ensures
        ({
            let plan = assembled(fs, primary, resolved, value);
            &&& plan.initializers.len() == fs.fields.len()
            &&& forall|i: int|
                0 <= i < fs.fields.len() ==> 0 <= #[trigger] slot(fs.shape, primary, i)
                    < plan.initializers.len()
            &&& primary matches Some(p) ==> plan.initializers[slot(fs.shape, primary, p)] == (
            InitializerView::Bound { name: primary_name(fs.fields[p].name) })
            &&& forall|i: int|
                0 <= i < fs.fields.len() && primary != Some(i) ==> initializes(
                    plan,
                    plan.initializers[slot(fs.shape, primary, i)],
                    fs.fields[i].name,
                    (#[trigger] resolved[i])[0],
                )
        }),
{
    lemma_one_initializer_each(fs, primary, resolved, value, fs.fields.len());
}

} // verus!
